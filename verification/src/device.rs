//! Devices: which graphics cards the machine has, and what they are called.
use crate::number::{
    hex, hex_is_in_its_case, hex_of, hex_reads_back, is_capital_hex, is_only_digits, is_small_hex,
    natural, number, numbers_of, only_digits, parse_number,
};
use crate::order::{
    sort, sorted, sorted_is_stable, sorted_keeps_items, text_le, text_le_total, text_le_transitive,
    text_not_behind, views, Ranked,
};
use crate::pci::{name_of, pci_name, writes};
use crate::text::{
    from_chars, has_prefix, is_digit, is_space, lines, lines_of, optional, prefixes_stand_before,
    same, starts_with, strip_prefix, texts, to_chars, trim, trimmed, trimming_takes_only_space,
    without_prefix,
};
use vstd::prelude::*;

verus! {

/// The PCI vendor number of AMD.
pub const AMD_VENDOR: u16 = 0x1002;

/// One graphics card.
#[derive(Clone, Debug)]
pub struct Device {
    pub index: usize,
    pub bus_id: String,
    pub name: String,
    pub driver: String,
    pub sysfs: String,
    pub node: String,
    pub card: String,
}

/// What a `Device` says, its texts as character sequences.
pub struct DeviceView {
    pub index: int,
    pub bus_id: Seq<char>,
    pub name: Seq<char>,
    pub driver: Seq<char>,
    pub sysfs: Seq<char>,
    pub node: Seq<char>,
    pub card: Seq<char>,
}

impl View for Device {
    type V = DeviceView;

    open spec fn view(&self) -> DeviceView {
        DeviceView {
            index: self.index as int,
            bus_id: self.bus_id@,
            name: self.name@,
            driver: self.driver@,
            sysfs: self.sysfs@,
            node: self.node@,
            card: self.card@,
        }
    }
}

/// Devices stand in the order of their bus ids.
impl Ranked for Device {
    open spec fn le(a: DeviceView, b: DeviceView) -> bool {
        text_le(a.bus_id, b.bus_id)
    }

    proof fn le_total(a: DeviceView, b: DeviceView) {
        text_le_total(a.bus_id, b.bus_id);
    }

    proof fn le_transitive(a: DeviceView, b: DeviceView, c: DeviceView) {
        text_le_transitive(a.bus_id, b.bus_id, c.bus_id);
    }

    fn not_behind(&self, other: &Self) -> (r: bool) {
        text_not_behind(self.bus_id.as_str(), other.bus_id.as_str())
    }
}

// ---------------------------------------------------------------------------
// Readings
// ---------------------------------------------------------------------------
/// A power in watts, as it is written: rounded to whole watts, and to hundredths.
pub struct Watts {
    /// The millionths of a watt that are written.
    pub microwatts: u64,
    pub whole: String,
    pub hundredths: String,
}

/// What `Watts` say, as character sequences.
pub struct WattsView {
    pub microwatts: u64,
    pub whole: Seq<char>,
    pub hundredths: Seq<char>,
}

impl View for Watts {
    type V = WattsView;

    open spec fn view(&self) -> WattsView {
        WattsView {
            microwatts: self.microwatts,
            whole: self.whole@,
            hundredths: self.hundredths@,
        }
    }
}

/// What is known of the state of a device; nothing where it could not be read.
pub struct Metrics {
    pub temperature_c: Option<i64>,
    pub utilization: Option<u32>,
    pub memory_total: Option<u64>,
    pub memory_used: Option<u64>,
    pub gtt_total: Option<u64>,
    pub gtt_used: Option<u64>,
    pub visible_memory_total: Option<u64>,
    pub visible_memory_used: Option<u64>,
    pub fan_rpm: Option<u64>,
    pub graphics_mhz: Option<u32>,
    pub memory_mhz: Option<u32>,
    pub power_watts: Option<Watts>,
    pub power_cap_watts: Option<Watts>,
    pub display_active: Option<bool>,
    pub issue: Option<String>,
}

/// What `Metrics` say, their texts as character sequences.
pub struct MetricsView {
    pub temperature_c: Option<i64>,
    pub utilization: Option<u32>,
    pub memory_total: Option<u64>,
    pub memory_used: Option<u64>,
    pub gtt_total: Option<u64>,
    pub gtt_used: Option<u64>,
    pub visible_memory_total: Option<u64>,
    pub visible_memory_used: Option<u64>,
    pub fan_rpm: Option<u64>,
    pub graphics_mhz: Option<u32>,
    pub memory_mhz: Option<u32>,
    pub power_watts: Option<WattsView>,
    pub power_cap_watts: Option<WattsView>,
    pub display_active: Option<bool>,
    pub issue: Option<Seq<char>>,
}

/// The view of an optional power.
pub open spec fn optional_watts(w: Option<Watts>) -> Option<WattsView> {
    match w {
        Some(w) => Some(w@),
        None => None,
    }
}

impl View for Metrics {
    type V = MetricsView;

    open spec fn view(&self) -> MetricsView {
        MetricsView {
            temperature_c: self.temperature_c,
            utilization: self.utilization,
            memory_total: self.memory_total,
            memory_used: self.memory_used,
            gtt_total: self.gtt_total,
            gtt_used: self.gtt_used,
            visible_memory_total: self.visible_memory_total,
            visible_memory_used: self.visible_memory_used,
            fan_rpm: self.fan_rpm,
            graphics_mhz: self.graphics_mhz,
            memory_mhz: self.memory_mhz,
            power_watts: optional_watts(self.power_watts),
            power_cap_watts: optional_watts(self.power_cap_watts),
            display_active: self.display_active,
            issue: optional(self.issue),
        }
    }
}

/// Nothing is known.
pub open spec fn unknown_metrics() -> MetricsView {
    MetricsView {
        temperature_c: None,
        utilization: None,
        memory_total: None,
        memory_used: None,
        gtt_total: None,
        gtt_used: None,
        visible_memory_total: None,
        visible_memory_used: None,
        fan_rpm: None,
        graphics_mhz: None,
        memory_mhz: None,
        power_watts: None,
        power_cap_watts: None,
        display_active: None,
        issue: None,
    }
}

impl Default for Metrics {
    fn default() -> (r: Self)
        ensures
            r@ == unknown_metrics(),
    {
        Metrics {
            temperature_c: None,
            utilization: None,
            memory_total: None,
            memory_used: None,
            gtt_total: None,
            gtt_used: None,
            visible_memory_total: None,
            visible_memory_used: None,
            fan_rpm: None,
            graphics_mhz: None,
            memory_mhz: None,
            power_watts: None,
            power_cap_watts: None,
            display_active: None,
            issue: None,
        }
    }
}

// ---------------------------------------------------------------------------
// Attribute files
// ---------------------------------------------------------------------------
/// The text of an attribute file, without the white space round it.
pub fn read_string(contents: &str) -> (r: String)
    ensures
        r@ == trimmed(contents@),
{
    trim(contents)
}

/// The decimal number that an attribute file holds.
pub open spec fn number_in(contents: Seq<char>) -> Option<nat> {
    number(trimmed(contents), 10, u64::MAX as nat)
}

pub fn read_number(contents: &str) -> (r: Option<u64>)
    ensures
        natural(r) == number_in(contents@),
{
    parse_number(read_string(contents).as_str(), 10, u64::MAX)
}

/// `s` without the hexadecimal markers `0x` that it begins with.
pub open spec fn without_marker(s: Seq<char>) -> Seq<char>
    decreases s.len(),
{
    if s.len() >= 2 && s[0] == '0' && s[1] == 'x' {
        without_marker(s.skip(2))
    } else {
        s
    }
}

/// The 16-bit hexadecimal number that an attribute file holds.
pub open spec fn hex_in(contents: Seq<char>) -> Option<nat> {
    number(without_marker(trimmed(contents)), 16, u16::MAX as nat)
}

pub fn read_hex(contents: &str) -> (r: Option<u16>)
    ensures
        match r {
            Some(v) => hex_in(contents@) == Some(v as nat),
            None => hex_in(contents@) is None,
        },
{
    let value: String = read_string(contents);
    let all: Vec<char> = to_chars(value.as_str());
    let n: usize = all.len();
    let mut k: usize = 0;
    assert(all@.skip(0) =~= all@);
    while n - k >= 2 && all[k] == '0' && all[k + 1] == 'x'
        invariant
            n == all@.len(),
            k <= n,
            without_marker(all@) == without_marker(all@.skip(k as int)),
        decreases n - k,
    {
        assert(all@.skip(k as int).skip(2) =~= all@.skip(k + 2));
        k += 2;
    }
    let rest: String = from_chars(&all, k, n);
    assert(rest@ =~= all@.skip(k as int));
    match parse_number(rest.as_str(), 16, u16::MAX as u64) {
        Some(v) => Some(v as u16),
        None => None,
    }
}

/// `read_hex` of a file that may not have been readable.
pub open spec fn hex_if_read(contents: Option<String>) -> Option<nat> {
    match contents {
        Some(c) => hex_in(c@),
        None => None,
    }
}

fn read_hex_if(contents: &Option<String>) -> (r: Option<u16>)
    ensures
        match r {
            Some(v) => hex_if_read(*contents) == Some(v as nat),
            None => hex_if_read(*contents) is None,
        },
{
    match contents {
        Some(c) => read_hex(c.as_str()),
        None => None,
    }
}

// ---------------------------------------------------------------------------
// Paths
// ---------------------------------------------------------------------------
/// The path `name` as seen from `base`: an absolute one stands for itself.
pub open spec fn path_of(base: Seq<char>, name: Seq<char>) -> Seq<char> {
    if name.len() > 0 && name[0] == '/' {
        name
    } else if base.len() == 0 || base.last() == '/' {
        base + name
    } else {
        base.push('/') + name
    }
}

pub fn join_path(base: &str, name: &str) -> (r: String)
    ensures
        r@ == path_of(base@, name@),
{
    let b: Vec<char> = to_chars(base);
    let c: Vec<char> = to_chars(name);
    if c.len() > 0 && c[0] == '/' {
        return name.to_owned();
    }
    let mut r: String = base.to_owned();
    if b.len() > 0 && b[b.len() - 1] != '/' {
        r.push('/');
    }
    r.append(name);
    r
}

// ---------------------------------------------------------------------------
// The DRM class directory
// ---------------------------------------------------------------------------
/// What the DRM class directory holds under one name. The texts are the contents of the attribute
/// files in its `device` directory, none where a file could not be read.
pub struct DrmEntry {
    /// The name of the entry.
    pub name: String,
    pub vendor: Option<String>,
    pub device: Option<String>,
    pub subsystem_vendor: Option<String>,
    pub subsystem_device: Option<String>,
    pub uevent: Option<String>,
    /// The path that `device` leads to, with every link followed.
    pub target: Option<Vec<u8>>,
    /// The last component of that path.
    pub target_name: Option<String>,
}

/// The bytes of a path.
pub open spec fn path_bytes(path: Option<Vec<u8>>) -> Option<Seq<u8>> {
    match path {
        Some(p) => Some(p@),
        None => None,
    }
}

fn same_path(a: &Vec<u8>, b: &Vec<u8>) -> (r: bool)
    ensures
        r == (a@ == b@),
{
    if a.len() != b.len() {
        return false;
    }
    for i in 0..a.len()
        invariant
            a@.len() == b@.len(),
            forall|j: int| 0 <= j < i ==> a@[j] == b@[j],
    {
        if a[i] != b[i] {
            return false;
        }
    }
    assert(a@ =~= b@);
    true
}

/// The names that cards have: `card`, and decimal digits behind it.
pub open spec fn is_card(name: Seq<char>) -> bool {
    match without_prefix(name, "card"@) {
        Some(rest) => only_digits(rest),
        None => false,
    }
}

/// Whether the attribute files of an entry are worth reading: it has the name of a card.
pub fn named_card(name: &str) -> (r: bool)
    ensures
        r == is_card(name@),
{
    match strip_prefix(name, "card") {
        Some(rest) => is_only_digits(rest.as_str()),
        None => false,
    }
}

/// What stands behind the first `DRIVER=` that a line begins with.
pub open spec fn driver_in(lines: Seq<Seq<char>>) -> Seq<char>
    decreases lines.len(),
{
    if lines.len() == 0 {
        "unknown"@
    } else {
        match without_prefix(lines[0], "DRIVER="@) {
            Some(driver) => driver,
            None => driver_in(lines.skip(1)),
        }
    }
}

/// The driver that a `uevent` file names.
pub open spec fn driver_of(uevent: Option<String>) -> Seq<char> {
    match uevent {
        Some(contents) => driver_in(lines_of(trimmed(contents@))),
        None => "unknown"@,
    }
}

fn driver(uevent: &Option<String>) -> (r: String)
    ensures
        r@ == driver_of(*uevent),
{
    if let Some(contents) = uevent {
        let all: Vec<String> = lines(read_string(contents.as_str()).as_str());
        let ghost whole = texts(all@);
        assert(whole.skip(0) =~= whole);
        for i in 0..all.len()
            invariant
                whole == texts(all@),
                driver_in(whole) == driver_in(whole.skip(i as int)),
                driver_in(whole) == driver_of(*uevent),
        {
            assert(whole.skip(i as int)[0] == all@[i as int]@);
            assert(whole.skip(i as int).skip(1) =~= whole.skip(i + 1));
            if let Some(name) = strip_prefix(all[i].as_str(), "DRIVER=") {
                return name;
            }
        }
    }
    "unknown".to_owned()
}

/// The drivers whose devices are reported.
pub open spec fn is_supported(driver: Seq<char>) -> bool {
    driver == "radeon"@ || driver == "amdgpu"@
}

/// The first render node in `entries` that belongs to the device at `target`.
pub open spec fn render_node(entries: Seq<DrmEntry>, target: Option<Seq<u8>>) -> Option<Seq<char>>
    decreases entries.len(),
{
    if entries.len() == 0 || target is None {
        None
    } else if is_render_node(entries[0].name@) && path_bytes(entries[0].target) == target {
        Some(entries[0].name@)
    } else {
        render_node(entries.skip(1), target)
    }
}

/// The names that render nodes have.
pub open spec fn is_render_node(name: Seq<char>) -> bool {
    has_prefix(name, "renderD"@)
}

/// Whether the target of an entry is worth following for its name alone.
pub fn named_render_node(name: &str) -> (r: bool)
    ensures
        r == is_render_node(name@),
{
    starts_with(name, "renderD")
}

fn find_render_node(entries: &[DrmEntry], target: &Option<Vec<u8>>) -> (r: Option<String>)
    ensures
        optional(r) == render_node(entries@, path_bytes(*target)),
{
    if let Some(path) = target {
        assert(entries@.skip(0) =~= entries@);
        for i in 0..entries.len()
            invariant
                path_bytes(*target) == Some(path@),
                render_node(entries@, Some(path@)) == render_node(
                    entries@.skip(i as int),
                    Some(path@),
                ),
        {
            assert(entries@.skip(i as int).skip(1) =~= entries@.skip(i + 1));
            if named_render_node(entries[i].name.as_str()) {
                if let Some(other) = &entries[i].target {
                    if same_path(other, path) {
                        return Some(entries[i].name.clone());
                    }
                }
            }
        }
    }
    None
}

/// What is reported of an entry, if it is a card of AMD's with a supported driver.
pub open spec fn device_at(
    entry: DrmEntry,
    entries: Seq<DrmEntry>,
    ids: Option<Seq<char>>,
    drm: Seq<char>,
    nodes: Seq<char>,
) -> Option<DeviceView> {
    let name = entry.name@;
    let driver = driver_of(entry.uevent);
    if is_card(name) && hex_if_read(entry.vendor) == Some(AMD_VENDOR as nat) && hex_if_read(
        entry.device,
    ) is Some && is_supported(driver) {
        let device_id = hex_if_read(entry.device)->0;
        Some(
            DeviceView {
                index: 0,
                bus_id: match entry.target_name {
                    Some(bus) => bus@,
                    None => "unknown"@,
                },
                name: board(
                    ids,
                    device_id,
                    hex_if_read(entry.subsystem_vendor),
                    hex_if_read(entry.subsystem_device),
                ),
                driver,
                sysfs: path_of(path_of(drm, name), "device"@),
                node: match render_node(entries, path_bytes(entry.target)) {
                    Some(render) => path_of(nodes, render),
                    None => path_of(nodes, name),
                },
                card: name,
            },
        )
    } else {
        None
    }
}

/// The name of a board: by the database, else by its number. Numbers that could not be read count
/// for 0.
pub open spec fn board(
    ids: Option<Seq<char>>,
    device_id: nat,
    subsystem_vendor: Option<nat>,
    subsystem_id: Option<nat>,
) -> Seq<char> {
    let by_number = "AMD GPU [1002:"@ + hex_of(device_id, 4, false) + "]"@;
    match ids {
        Some(ids) => match name_of(
            ids,
            device_id as u16,
            or_zero(subsystem_vendor) as u16,
            or_zero(subsystem_id) as u16,
        ) {
            Some(name) => name,
            None => by_number,
        },
        None => by_number,
    }
}

/// The number, or 0.
pub open spec fn or_zero(n: Option<nat>) -> nat {
    match n {
        Some(n) => n,
        None => 0,
    }
}

fn board_name(ids: &Option<String>, device_id: u16, entry: &DrmEntry) -> (r: String)
    ensures
        r@ == board(
            optional(*ids),
            device_id as nat,
            hex_if_read(entry.subsystem_vendor),
            hex_if_read(entry.subsystem_device),
        ),
{
    let subsystem_vendor: u16 = read_hex_if(&entry.subsystem_vendor).unwrap_or(0);
    let subsystem_id: u16 = read_hex_if(&entry.subsystem_device).unwrap_or(0);
    if let Some(text) = ids {
        if let Some(name) = pci_name(text.as_str(), device_id, subsystem_vendor, subsystem_id) {
            return name;
        }
    }
    let mut r: String = "AMD GPU [1002:".to_owned();
    r.append(hex(device_id as u32, 4, false).as_str());
    r.append("]");
    r
}

fn describe(
    entry: &DrmEntry,
    entries: &[DrmEntry],
    ids: &Option<String>,
    drm: &str,
    nodes: &str,
) -> (r: Option<Device>)
    ensures
        match r {
            Some(d) => device_at(*entry, entries@, optional(*ids), drm@, nodes@) == Some(d@),
            None => device_at(*entry, entries@, optional(*ids), drm@, nodes@) is None,
        },
{
    let name: &str = entry.name.as_str();
    if !named_card(name) {
        return None;
    }
    match read_hex_if(&entry.vendor) {
        Some(vendor) => {
            if vendor != AMD_VENDOR {
                return None;
            }
        },
        None => {
            return None;
        },
    }
    let device_id: u16 = match read_hex_if(&entry.device) {
        Some(id) => id,
        None => {
            return None;
        },
    };
    let driver: String = driver(&entry.uevent);
    if !same(driver.as_str(), "radeon") && !same(driver.as_str(), "amdgpu") {
        return None;
    }
    let bus_id: String = match &entry.target_name {
        Some(bus) => bus.clone(),
        None => "unknown".to_owned(),
    };
    let node: String = match find_render_node(entries, &entry.target) {
        Some(render) => join_path(nodes, render.as_str()),
        None => join_path(nodes, name),
    };
    Some(
        Device {
            index: 0,
            bus_id,
            name: board_name(ids, device_id, entry),
            driver,
            sysfs: join_path(join_path(drm, name).as_str(), "device"),
            node,
            card: entry.name.clone(),
        },
    )
}

/// What is reported of the first `n` entries, in their order.
pub open spec fn devices_among(
    entries: Seq<DrmEntry>,
    n: int,
    ids: Option<Seq<char>>,
    drm: Seq<char>,
    nodes: Seq<char>,
) -> Seq<DeviceView>
    decreases n,
{
    if n <= 0 {
        Seq::empty()
    } else {
        let before = devices_among(entries, n - 1, ids, drm, nodes);
        match device_at(entries[n - 1], entries, ids, drm, nodes) {
            Some(d) => before.push(d),
            None => before,
        }
    }
}

/// The devices, each with its place in the list as its index.
pub open spec fn numbered(devices: Seq<DeviceView>) -> Seq<DeviceView> {
    Seq::new(devices.len(), |i: int| DeviceView { index: i, ..devices[i] })
}

/// The devices that the DRM class directory shows, in the order of their bus ids.
pub open spec fn devices_in(
    entries: Seq<DrmEntry>,
    ids: Option<Seq<char>>,
    drm: Seq<char>,
    nodes: Seq<char>,
) -> Seq<DeviceView> {
    numbered(
        sorted::<Device>(devices_among(entries, entries.len() as int, ids, drm, nodes)),
    )
}

/// The devices of the class directory `drm` with the entries `entries`; their nodes stand in
/// `nodes`. `ids` is the PCI id database, if it could be read.
pub fn discover_at(drm: &str, nodes: &str, entries: &[DrmEntry], ids: &Option<String>) -> (r: Vec<
    Device,
>)
    ensures
        views(r@) == devices_in(entries@, optional(*ids), drm@, nodes@),
{
    let mut found: Vec<Device> = Vec::new();
    for i in 0..entries.len()
        invariant
            views(found@) =~= devices_among(entries@, i as int, optional(*ids), drm@, nodes@),
    {
        if let Some(device) = describe(&entries[i], entries, ids, drm, nodes) {
            let ghost before = views(found@);
            found.push(device);
            assert(views(found@) =~= before.push(device@));
        }
    }
    let mut devices: Vec<Device> = sort(found);
    let ghost all = views(devices@);
    let n: usize = devices.len();
    for i in 0..n
        invariant
            devices@.len() == n,
            all.len() == n,
            forall|j: int| 0 <= j < i ==> (#[trigger] devices@[j])@ == numbered(all)[j],
            forall|j: int| i <= j < all.len() ==> (#[trigger] devices@[j])@ == all[j],
    {
        devices[i].index = i;
    }
    assert(views(devices@) =~= numbered(all));
    devices
}

/// The devices of this machine.
pub fn discover(entries: &[DrmEntry], ids: &Option<String>) -> (r: Vec<Device>)
    ensures
        views(r@) == devices_in(entries@, optional(*ids), "/sys/class/drm"@, "/dev/dri"@),
{
    discover_at("/sys/class/drm", "/dev/dri", entries, ids)
}

// ---------------------------------------------------------------------------
// Laws
// ---------------------------------------------------------------------------
/// Every device comes from an entry.
proof fn lemma_devices_among(
    entries: Seq<DrmEntry>,
    n: int,
    ids: Option<Seq<char>>,
    drm: Seq<char>,
    nodes: Seq<char>,
)
    requires
        0 <= n <= entries.len(),
    ensures
        ({
            let found = devices_among(entries, n, ids, drm, nodes);
            forall|i: int|
                0 <= i < found.len() ==> exists|k: int|
                    0 <= k < n && device_at(#[trigger] entries[k], entries, ids, drm, nodes)
                        == Some(#[trigger] found[i])
        }),
    decreases n,
{
    if n > 0 {
        lemma_devices_among(entries, n - 1, ids, drm, nodes);
        let before = devices_among(entries, n - 1, ids, drm, nodes);
        let found = devices_among(entries, n, ids, drm, nodes);
        assert forall|i: int| 0 <= i < found.len() implies exists|k: int|
            0 <= k < n && device_at(#[trigger] entries[k], entries, ids, drm, nodes) == Some(
                #[trigger] found[i],
            ) by {
            if i < before.len() {
                assert(found[i] == before[i]);
                let k = choose|k: int|
                    0 <= k < n - 1 && device_at(#[trigger] entries[k], entries, ids, drm, nodes)
                        == Some(before[i]);
                assert(device_at(entries[k], entries, ids, drm, nodes) == Some(found[i]));
            } else {
                assert(device_at(entries[n - 1], entries, ids, drm, nodes) == Some(found[i]));
            }
        }
    }
}

/// What every entry shows is found.
proof fn lemma_device_is_among(
    entries: Seq<DrmEntry>,
    n: int,
    ids: Option<Seq<char>>,
    drm: Seq<char>,
    nodes: Seq<char>,
    k: int,
)
    requires
        0 <= k < n <= entries.len(),
        device_at(entries[k], entries, ids, drm, nodes) is Some,
    ensures
        devices_among(entries, n, ids, drm, nodes).contains(
            device_at(entries[k], entries, ids, drm, nodes)->0,
        ),
    decreases n,
{
    let d = device_at(entries[k], entries, ids, drm, nodes)->0;
    let before = devices_among(entries, n - 1, ids, drm, nodes);
    let found = devices_among(entries, n, ids, drm, nodes);
    if k < n - 1 {
        lemma_device_is_among(entries, n - 1, ids, drm, nodes, k);
        let i = choose|i: int| 0 <= i < before.len() && before[i] == d;
        assert(found[i] == d);
    } else {
        assert(found[found.len() - 1] == d);
    }
}

/// The devices are numbered from 0 in the order of their bus ids. Each is a card of the directory
/// with AMD's vendor number and a supported driver.
pub proof fn devices_are_numbered_in_order(
    entries: Seq<DrmEntry>,
    ids: Option<Seq<char>>,
    drm: Seq<char>,
    nodes: Seq<char>,
)
    ensures
        ({
            let found = devices_in(entries, ids, drm, nodes);
            &&& forall|i: int| 0 <= i < found.len() ==> (#[trigger] found[i]).index == i
            &&& forall|i: int, j: int|
                0 <= i < j < found.len() ==> text_le(
                    (#[trigger] found[i]).bus_id,
                    (#[trigger] found[j]).bus_id,
                )
            &&& forall|i: int|
                0 <= i < found.len() ==> is_supported((#[trigger] found[i]).driver) && is_card(
                    found[i].card,
                ) && exists|k: int|
                    0 <= k < entries.len() && device_at(
                        #[trigger] entries[k],
                        entries,
                        ids,
                        drm,
                        nodes,
                    ) == Some(DeviceView { index: 0, ..found[i] }) && hex_if_read(entries[k].vendor)
                        == Some(AMD_VENDOR as nat)
        }),
{
    let all = devices_among(entries, entries.len() as int, ids, drm, nodes);
    let list = sorted::<Device>(all);
    let found = devices_in(entries, ids, drm, nodes);
    lemma_devices_among(entries, entries.len() as int, ids, drm, nodes);
    sorted_is_stable::<Device>(all);
    sorted_keeps_items::<Device>(all);
    assert forall|i: int, j: int| 0 <= i < j < found.len() implies text_le(
        (#[trigger] found[i]).bus_id,
        (#[trigger] found[j]).bus_id,
    ) by {
        assert(Device::le(list[i], list[j]));
    }
    assert forall|i: int| 0 <= i < found.len() implies is_supported((#[trigger] found[i]).driver)
        && is_card(found[i].card) && exists|k: int|
        0 <= k < entries.len() && device_at(#[trigger] entries[k], entries, ids, drm, nodes)
            == Some(DeviceView { index: 0, ..found[i] }) && hex_if_read(entries[k].vendor) == Some(
            AMD_VENDOR as nat,
        ) by {
        assert(list.contains(list[i]));
        assert(all.contains(list[i]));
        let m = choose|m: int| 0 <= m < all.len() && all[m] == list[i];
        let k = choose|k: int|
            0 <= k < entries.len() && device_at(#[trigger] entries[k], entries, ids, drm, nodes)
                == Some(all[m]);
        assert(list[i] == (DeviceView { index: 0, ..found[i] }));
        assert(device_at(entries[k], entries, ids, drm, nodes) == Some(
            DeviceView { index: 0, ..found[i] },
        ));
    }
}

/// No card that can be reported is left out.
pub proof fn every_card_is_found(
    entries: Seq<DrmEntry>,
    ids: Option<Seq<char>>,
    drm: Seq<char>,
    nodes: Seq<char>,
    k: int,
)
    requires
        0 <= k < entries.len(),
        device_at(entries[k], entries, ids, drm, nodes) is Some,
    ensures
        ({
            let found = devices_in(entries, ids, drm, nodes);
            exists|i: int|
                0 <= i < found.len() && device_at(entries[k], entries, ids, drm, nodes) == Some(
                    DeviceView { index: 0, ..#[trigger] found[i] },
                )
        }),
{
    let all = devices_among(entries, entries.len() as int, ids, drm, nodes);
    let list = sorted::<Device>(all);
    let found = devices_in(entries, ids, drm, nodes);
    let d = device_at(entries[k], entries, ids, drm, nodes)->0;
    lemma_device_is_among(entries, entries.len() as int, ids, drm, nodes, k);
    sorted_keeps_items::<Device>(all);
    assert(list.contains(d));
    let i = choose|i: int| 0 <= i < list.len() && list[i] == d;
    assert(d == (DeviceView { index: 0, ..found[i] }));
}

/// The two entries agree in what is worth reading of them: everything of a card, and where a render
/// node leads to.
pub open spec fn agrees(entry: DrmEntry, other: DrmEntry) -> bool {
    &&& entry.name@ == other.name@
    &&& is_card(entry.name@) ==> entry == other
    &&& is_render_node(entry.name@) ==> path_bytes(entry.target) == path_bytes(other.target)
}

proof fn lemma_render_nodes_agree(
    entries: Seq<DrmEntry>,
    others: Seq<DrmEntry>,
    target: Option<Seq<u8>>,
)
    requires
        entries.len() == others.len(),
        forall|i: int| 0 <= i < entries.len() ==> agrees(#[trigger] entries[i], others[i]),
    ensures
        render_node(entries, target) == render_node(others, target),
    decreases entries.len(),
{
    if entries.len() > 0 {
        let a = entries.skip(1);
        let b = others.skip(1);
        assert(agrees(entries[0], others[0]));
        assert forall|i: int| 0 <= i < a.len() implies agrees(#[trigger] a[i], b[i]) by {
            assert(agrees(entries[i + 1], others[i + 1]));
        }
        lemma_render_nodes_agree(a, b, target);
    }
}

proof fn lemma_devices_agree(
    entries: Seq<DrmEntry>,
    others: Seq<DrmEntry>,
    n: int,
    ids: Option<Seq<char>>,
    drm: Seq<char>,
    nodes: Seq<char>,
)
    requires
        n <= entries.len(),
        entries.len() == others.len(),
        forall|i: int| 0 <= i < entries.len() ==> agrees(#[trigger] entries[i], others[i]),
    ensures
        devices_among(entries, n, ids, drm, nodes) == devices_among(others, n, ids, drm, nodes),
    decreases n,
{
    if n > 0 {
        lemma_devices_agree(entries, others, n - 1, ids, drm, nodes);
        assert(agrees(entries[n - 1], others[n - 1]));
        lemma_render_nodes_agree(entries, others, path_bytes(entries[n - 1].target));
    }
}

/// Nothing else needs to be read: the same devices are found, whatever the files of entries that
/// are no cards hold, and wherever those lead to that are no render nodes.
pub proof fn other_entries_do_not_matter(
    entries: Seq<DrmEntry>,
    others: Seq<DrmEntry>,
    ids: Option<Seq<char>>,
    drm: Seq<char>,
    nodes: Seq<char>,
)
    requires
        entries.len() == others.len(),
        forall|i: int| 0 <= i < entries.len() ==> agrees(#[trigger] entries[i], others[i]),
    ensures
        devices_in(entries, ids, drm, nodes) == devices_in(others, ids, drm, nodes),
{
    lemma_devices_agree(entries, others, entries.len() as int, ids, drm, nodes);
}

proof fn lemma_no_marker(s: Seq<char>)
    requires
        s.len() > 1 ==> s[1] != 'x',
    ensures
        without_marker(s) == s,
{
}

/// A file that holds a number of 16 bits in hexadecimal, with `0x` before it and a line feed behind
/// it, as the kernel writes them, is read as that number, in either case of letters.
pub proof fn hexadecimal_files_are_read(n: u16, capital: bool)
    ensures
        hex_in(seq!['0', 'x'] + hex_of(n as nat, 4, capital) + seq!['\n']) == Some(n as nat),
        hex_in(hex_of(n as nat, 4, capital)) == Some(n as nat),
{
    let digits = hex_of(n as nat, 4, capital);
    let text = seq!['0', 'x'] + digits;
    let none = Seq::<char>::empty();
    hex_is_in_its_case(n as nat, 4, capital);
    assert(n < numbers_of(4, 16)) by {
        reveal_with_fuel(numbers_of, 5);
    }
    hex_reads_back(n as nat, 4, capital, u16::MAX as nat);
    assert(is_small_hex(digits[0]) || is_capital_hex(digits[0]));
    assert(is_small_hex(digits[1]) || is_capital_hex(digits[1]));
    assert(is_small_hex(digits[3]) || is_capital_hex(digits[3]));
    assert(text[0] == '0' && text.last() == digits[3]);
    trimming_takes_only_space(none, text, seq!['\n']);
    assert(none + text + seq!['\n'] =~= seq!['0', 'x'] + digits + seq!['\n']);
    trimming_takes_only_space(none, digits, none);
    assert(none + digits + none =~= digits);
    lemma_no_marker(digits);
    assert(text.skip(2) =~= digits);
    assert(without_marker(text) == digits);
}

/// The driver is what stands behind `DRIVER=` on the first line that begins with it.
pub proof fn the_first_driver_line_counts(uevent: String, k: int, driver: Seq<char>)
    requires
        0 <= k < lines_of(trimmed(uevent@)).len(),
        lines_of(trimmed(uevent@))[k] == "DRIVER="@ + driver,
        forall|i: int|
            0 <= i < k ==> !has_prefix(#[trigger] lines_of(trimmed(uevent@))[i], "DRIVER="@),
    ensures
        driver_of(Some(uevent)) == driver,
{
    lemma_driver_in(lines_of(trimmed(uevent@)), k, driver);
}

proof fn lemma_driver_in(lines: Seq<Seq<char>>, k: int, driver: Seq<char>)
    requires
        0 <= k < lines.len(),
        lines[k] == "DRIVER="@ + driver,
        forall|i: int| 0 <= i < k ==> !has_prefix(#[trigger] lines[i], "DRIVER="@),
    ensures
        driver_in(lines) == driver,
    decreases k,
{
    if k == 0 {
        prefixes_stand_before("DRIVER="@, driver);
    } else {
        let rest = lines.skip(1);
        assert(!has_prefix(lines[0], "DRIVER="@));
        assert(rest[k - 1] == lines[k]);
        assert forall|i: int| 0 <= i < k - 1 implies !has_prefix(#[trigger] rest[i], "DRIVER="@) by {
            assert(rest[i] == lines[i + 1]);
        }
        lemma_driver_in(rest, k - 1, driver);
    }
}

/// The render node of a device is the first whose name begins with `renderD` and that leads to the
/// same place; there is none if none does, or if it is not known where the device leads to.
pub proof fn the_first_render_node_counts(entries: Seq<DrmEntry>, target: Seq<u8>)
    ensures
        forall|k: int|
            0 <= k < entries.len() && leads_to(#[trigger] entries[k], target) && (forall|i: int|
                0 <= i < k ==> !leads_to(#[trigger] entries[i], target)) ==> render_node(
                entries,
                Some(target),
            ) == Some(entries[k].name@),
        (forall|i: int| 0 <= i < entries.len() ==> !leads_to(#[trigger] entries[i], target))
            ==> render_node(entries, Some(target)) is None,
        render_node(entries, None) is None,
    decreases entries.len(),
{
    if entries.len() > 0 {
        let rest = entries.skip(1);
        the_first_render_node_counts(rest, target);
        assert(leads_to(entries[0], target) <==> is_render_node(entries[0].name@) && path_bytes(
            entries[0].target,
        ) == Some(target));
        assert forall|k: int|
            0 <= k < entries.len() && leads_to(#[trigger] entries[k], target) && (forall|i: int|
                0 <= i < k ==> !leads_to(#[trigger] entries[i], target)) implies render_node(
            entries,
            Some(target),
        ) == Some(entries[k].name@) by {
            if k > 0 {
                assert(!leads_to(entries[0], target));
                assert(rest[k - 1] == entries[k]);
                assert forall|i: int| 0 <= i < k - 1 implies !leads_to(#[trigger] rest[i], target) by {
                    assert(rest[i] == entries[i + 1]);
                }
            }
        }
        if forall|i: int| 0 <= i < entries.len() ==> !leads_to(#[trigger] entries[i], target) {
            assert(!leads_to(entries[0], target));
            assert forall|i: int| 0 <= i < rest.len() implies !leads_to(#[trigger] rest[i], target) by {
                assert(rest[i] == entries[i + 1]);
            }
        }
    }
}

/// An entry with the name of a render node that leads to `target`.
pub open spec fn leads_to(entry: DrmEntry, target: Seq<u8>) -> bool {
    has_prefix(entry.name@, "renderD"@) && (entry.target matches Some(path) && path@ == target)
}

/// What is reported of a card with AMD's vendor number, a readable device number and a supported
/// driver.
pub proof fn what_a_card_shows(
    entry: DrmEntry,
    entries: Seq<DrmEntry>,
    ids: Option<Seq<char>>,
    drm: Seq<char>,
    nodes: Seq<char>,
    digits: Seq<char>,
    vendor: String,
    number: String,
    device_id: u16,
)
    requires
        entry.name@ == "card"@ + digits,
        forall|i: int| 0 <= i < digits.len() ==> '0' <= #[trigger] digits[i] <= '9',
        entry.vendor == Some(vendor),
        hex_in(vendor@) == Some(0x1002nat),
        entry.device == Some(number),
        hex_in(number@) == Some(device_id as nat),
        driver_of(entry.uevent) == "radeon"@ || driver_of(entry.uevent) == "amdgpu"@,
        drm.len() > 0,
        drm.last() != '/',
        nodes.len() > 0,
        nodes.last() != '/',
    ensures
        device_at(entry, entries, ids, drm, nodes) matches Some(d) && {
            let subsystem_vendor = match entry.subsystem_vendor {
                Some(text) => match hex_in(text@) {
                    Some(n) => n as u16,
                    None => 0,
                },
                None => 0,
            };
            let subsystem_id = match entry.subsystem_device {
                Some(text) => match hex_in(text@) {
                    Some(n) => n as u16,
                    None => 0,
                },
                None => 0,
            };
            let known = match ids {
                Some(ids) => name_of(ids, device_id, subsystem_vendor, subsystem_id),
                None => None,
            };
            let render = match entry.target {
                Some(path) => render_node(entries, Some(path@)),
                None => None,
            };
            &&& d.card == entry.name@
            &&& d.driver == driver_of(entry.uevent)
            &&& d.bus_id == match entry.target_name {
                Some(bus) => bus@,
                None => "unknown"@,
            }
            &&& d.sysfs == drm + seq!['/'] + entry.name@ + "/device"@
            &&& d.node == nodes + seq!['/'] + match render {
                Some(render) => render,
                None => entry.name@,
            }
            &&& match known {
                Some(name) => d.name == name,
                None => is_named_by_number(d.name, device_id),
            }
        },
{
    reveal_strlit("card");
    reveal_strlit("device");
    reveal_strlit("/device");
    reveal_strlit("renderD");
    prefixes_stand_before("card"@, digits);
    let name = entry.name@;
    assert(only_digits(digits)) by {
        assert forall|i: int| 0 <= i < digits.len() implies is_digit(#[trigger] digits[i]) by {}
    }
    assert(is_card(name));
    assert(name[0] == "card"@[0]);
    let place = drm.push('/') + name;
    assert(path_of(drm, name) == place);
    assert(place.last() != '/') by {
        if digits.len() > 0 {
            let c = digits[digits.len() - 1];
            assert(place.last() == c);
            assert('0' <= c <= '9');
        } else {
            assert(place.last() == "card"@[3]);
        }
    }
    assert(path_of(place, "device"@) =~= drm + seq!['/'] + name + "/device"@);
    assert(path_of(nodes, name) =~= nodes + seq!['/'] + name);
    if let Some(path) = entry.target {
        if let Some(render) = render_node(entries, Some(path@)) {
            lemma_render_name(entries, Some(path@));
            assert(render.take(7)[0] == "renderD"@[0]);
            assert(path_of(nodes, render) =~= nodes + seq!['/'] + render);
        }
    }
    lemma_by_number(device_id);
}

/// `AMD GPU [1002:`, the number in four small hexadecimal digits, and a bracket.
pub open spec fn is_named_by_number(name: Seq<char>, device_id: u16) -> bool {
    exists|digits: Seq<char>| #[trigger]
        writes(digits, device_id) && name == "AMD GPU [1002:"@ + digits + "]"@
}

proof fn lemma_by_number(device_id: u16)
    ensures
        is_named_by_number(
            "AMD GPU [1002:"@ + hex_of(device_id as nat, 4, false) + "]"@,
            device_id,
        ),
{
    let digits = hex_of(device_id as nat, 4, false);
    hex_is_in_its_case(device_id as nat, 4, false);
    assert(device_id < numbers_of(4, 16)) by {
        reveal_with_fuel(numbers_of, 5);
    }
    hex_reads_back(device_id as nat, 4, false, 0xffff);
    assert(writes(digits, device_id));
}

proof fn lemma_render_name(entries: Seq<DrmEntry>, target: Option<Seq<u8>>)
    ensures
        render_node(entries, target) matches Some(name) ==> has_prefix(name, "renderD"@),
    decreases entries.len(),
{
    if entries.len() > 0 {
        lemma_render_name(entries.skip(1), target);
    }
}

/// Nothing is reported of any other entry: one that is no card, is not of AMD's, has no readable
/// device number, or another driver.
pub proof fn other_entries_are_not_reported(
    entry: DrmEntry,
    entries: Seq<DrmEntry>,
    ids: Option<Seq<char>>,
    drm: Seq<char>,
    nodes: Seq<char>,
)
    ensures
        device_at(entry, entries, ids, drm, nodes) is Some ==> {
            &&& has_prefix(entry.name@, "card"@)
            &&& forall|i: int| 4 <= i < entry.name@.len() ==> '0' <= #[trigger] entry.name@[i] <= '9'
            &&& entry.vendor matches Some(vendor) && hex_in(vendor@) == Some(0x1002nat)
            &&& entry.device matches Some(number) && hex_in(number@) is Some
            &&& driver_of(entry.uevent) == "radeon"@ || driver_of(entry.uevent) == "amdgpu"@
        },
{
    reveal_strlit("card");
    if device_at(entry, entries, ids, drm, nodes) is Some {
        let rest = entry.name@.skip(4);
        assert(only_digits(rest));
        assert forall|i: int| 4 <= i < entry.name@.len() implies '0' <= #[trigger] entry.name@[i]
            <= '9' by {
            assert(rest[i - 4] == entry.name@[i]);
            assert(is_digit(rest[i - 4]));
        }
    }
}

/// A name is put behind a directory with one slash between them; an absolute path stands for
/// itself.
pub proof fn paths_have_one_slash(base: Seq<char>, name: Seq<char>)
    requires
        base.len() > 0,
        base.last() != '/',
    ensures
        name.len() > 0 && name[0] == '/' ==> path_of(base, name) == name,
        name.len() == 0 || name[0] != '/' ==> path_of(base, name) == base + seq!['/'] + name
            && path_of(base.push('/'), name) == base + seq!['/'] + name,
        path_of(Seq::empty(), name) == name,
{
    assert(Seq::<char>::empty() + name =~= name);
    assert(base.push('/') + name =~= base + seq!['/'] + name);
}

/// What is said of a device is what it holds, field by field.
pub proof fn devices_are_seen_by_their_fields(d: Device)
    ensures
        d@.index == d.index,
        d@.bus_id == d.bus_id@,
        d@.name == d.name@,
        d@.driver == d.driver@,
        d@.sysfs == d.sysfs@,
        d@.node == d.node@,
        d@.card == d.card@,
{
}

/// What is said of a power is what it holds, field by field.
pub proof fn powers_are_seen_by_their_fields(w: Watts)
    ensures
        w@.microwatts == w.microwatts,
        w@.whole == w.whole@,
        w@.hundredths == w.hundredths@,
{
}

/// What is said of readings is what they hold, field by field.
pub proof fn readings_are_seen_by_their_fields(m: Metrics)
    ensures
        m@.temperature_c == m.temperature_c,
        m@.utilization == m.utilization,
        m@.memory_total == m.memory_total,
        m@.memory_used == m.memory_used,
        m@.gtt_total == m.gtt_total,
        m@.gtt_used == m.gtt_used,
        m@.visible_memory_total == m.visible_memory_total,
        m@.visible_memory_used == m.visible_memory_used,
        m@.fan_rpm == m.fan_rpm,
        m@.graphics_mhz == m.graphics_mhz,
        m@.memory_mhz == m.memory_mhz,
        m@.display_active == m.display_active,
        m@.power_watts is Some <==> m.power_watts is Some,
        m.power_watts matches Some(watts) ==> m@.power_watts == Some(watts@),
        m@.power_cap_watts is Some <==> m.power_cap_watts is Some,
        m.power_cap_watts matches Some(watts) ==> m@.power_cap_watts == Some(watts@),
        m@.issue is Some <==> m.issue is Some,
        m.issue matches Some(issue) ==> m@.issue == Some(issue@),
{
}

/// The marker of hexadecimal numbers before a number makes no difference, however often it stands
/// there.
pub proof fn markers_make_no_difference(s: Seq<char>)
    requires
        s.len() > 0,
        !is_space(s[0]),
        !is_space(s.last()),
    ensures
        hex_in(seq!['0', 'x'] + s) == hex_in(s),
{
    let none = Seq::<char>::empty();
    let marked = seq!['0', 'x'] + s;
    trimming_takes_only_space(none, s, none);
    assert(none + s + none =~= s);
    trimming_takes_only_space(none, marked, none);
    assert(none + marked + none =~= marked);
    assert(marked.skip(2) =~= s);
}

/// Every card that can be reported is reported once.
pub proof fn every_card_is_reported_once(
    entries: Seq<DrmEntry>,
    ids: Option<Seq<char>>,
    drm: Seq<char>,
    nodes: Seq<char>,
)
    ensures
        devices_in(entries, ids, drm, nodes).len() == entries.filter(
            |e: DrmEntry| device_at(e, entries, ids, drm, nodes) is Some,
        ).len(),
{
    let n = entries.len() as int;
    lemma_devices_counted(entries, n, ids, drm, nodes);
    assert(entries.take(n) =~= entries);
    sorted_is_stable::<Device>(devices_among(entries, n, ids, drm, nodes));
}

proof fn lemma_devices_counted(
    entries: Seq<DrmEntry>,
    n: int,
    ids: Option<Seq<char>>,
    drm: Seq<char>,
    nodes: Seq<char>,
)
    requires
        0 <= n <= entries.len(),
    ensures
        devices_among(entries, n, ids, drm, nodes).len() == entries.take(n).filter(
            |e: DrmEntry| device_at(e, entries, ids, drm, nodes) is Some,
        ).len(),
    decreases n,
{
    reveal(Seq::filter);
    if n > 0 {
        lemma_devices_counted(entries, n - 1, ids, drm, nodes);
        assert(entries.take(n).drop_last() =~= entries.take(n - 1));
    }
}

/// What is said of an optional path, or of a file that may not have been readable, is what it holds.
pub proof fn optional_values_are_seen_by_what_they_hold(path: Vec<u8>, contents: String)
    ensures
        path_bytes(Some(path)) == Some(path@),
        path_bytes(None) is None,
        hex_if_read(Some(contents)) == hex_in(contents@),
        hex_if_read(None) is None,
        number_in(contents@) == number(trimmed(contents@), 10, 0xffff_ffff_ffff_ffff),
{
}

/// Of readings that nothing has been taken of, nothing is known.
pub proof fn nothing_is_known_at_first()
    ensures
        ({
            let m = unknown_metrics();
            &&& m.temperature_c is None && m.utilization is None && m.memory_total is None
            &&& m.memory_used is None && m.gtt_total is None && m.gtt_used is None
            &&& m.visible_memory_total is None && m.visible_memory_used is None
            &&& m.fan_rpm is None && m.graphics_mhz is None && m.memory_mhz is None
            &&& m.power_watts is None && m.power_cap_watts is None
            &&& m.display_active is None && m.issue is None
        }),
{
}

} // verus!
