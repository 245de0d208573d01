//! Telemetry: from what the kernel shows of a device to its readings.
use crate::device::{
    number_in, optional_watts, read_number, read_string, unknown_metrics, Device, DeviceView,
    Metrics, MetricsView, Watts, WattsView,
};
use crate::drm::{
    busy_is_the_top_bit, is_busy, sensor_data, status_register_data, AMDGPU_INFO_DEV_INFO,
    AMDGPU_INFO_READ_MMR_REG, AMDGPU_INFO_SENSOR, GRBM_STATUS, GUI_ACTIVE, INFO_GPU_MCLK,
    INFO_GPU_SCLK, INFO_READ_REG, INFO_VRAM_USAGE, IOCTL_AMDGPU_INFO, IOCTL_GEM_INFO, IOCTL_INFO,
    SENSOR_GRAPHICS_CLOCK, SENSOR_MEMORY_CLOCK, SENSOR_TEMPERATURE,
};
use crate::number::{decimal_of, decimal_reads_back};
use crate::text::{
    has_prefix, is_digit, is_space, joined_pair, optional, same, starts_with, texts, trimmed,
    trimmed_end, trimmed_start,
};
use vstd::prelude::*;

verus! {

// ---------------------------------------------------------------------------
// Single readings
// ---------------------------------------------------------------------------
/// A file under its name.
pub struct NamedFile {
    pub name: String,
    /// What it holds, if it could be read.
    pub contents: Option<String>,
}

/// What the file with this name holds: the first, if there are several.
pub open spec fn contents_of(files: Seq<NamedFile>, name: Seq<char>) -> Option<Seq<char>>
    decreases files.len(),
{
    if files.len() == 0 {
        None
    } else if files[0].name@ == name {
        optional(files[0].contents)
    } else {
        contents_of(files.skip(1), name)
    }
}

/// The number that a file holds, if it could be read.
pub open spec fn number_if_read(contents: Option<Seq<char>>) -> Option<u64> {
    match contents {
        Some(text) => match number_in(text) {
            Some(n) => Some(n as u64),
            None => None,
        },
        None => None,
    }
}

/// The number in the file with this name.
fn read_number_of(files: &Vec<NamedFile>, name: &str) -> (r: Option<u64>)
    ensures
        r == number_if_read(contents_of(files@, name@)),
{
    assert(files@.skip(0) =~= files@);
    for i in 0..files.len()
        invariant
            contents_of(files@, name@) == contents_of(files@.skip(i as int), name@),
    {
        assert(files@.skip(i as int).skip(1) =~= files@.skip(i + 1));
        if same(files[i].name.as_str(), name) {
            return match &files[i].contents {
                Some(text) => read_number(text.as_str()),
                None => None,
            };
        }
    }
    None
}

/// The first number that one of the monitors has in its file with this name.
pub open spec fn first_number(monitors: Seq<Vec<NamedFile>>, name: Seq<char>) -> Option<u64>
    decreases monitors.len(),
{
    if monitors.len() == 0 {
        None
    } else {
        match number_if_read(contents_of(monitors[0]@, name)) {
            Some(n) => Some(n),
            None => first_number(monitors.skip(1), name),
        }
    }
}

/// Reads a sensor file. `monitors` are the files of each monitor of the device.
pub fn hwmon(monitors: &[Vec<NamedFile>], field: &str) -> (r: Option<u64>)
    ensures
        r == first_number(monitors@, field@),
{
    assert(monitors@.skip(0) =~= monitors@);
    for i in 0..monitors.len()
        invariant
            first_number(monitors@, field@) == first_number(monitors@.skip(i as int), field@),
    {
        assert(monitors@.skip(i as int).skip(1) =~= monitors@.skip(i + 1));
        if let Some(value) = read_number_of(&monitors[i], field) {
            return Some(value);
        }
    }
    None
}

/// What stands beside the cards: an entry of their directory, and whether it says that it is
/// enabled.
pub struct Connector {
    /// The name of the entry.
    pub name: String,
    /// The contents of its `enabled` file, if it could be read.
    pub enabled: Option<String>,
}

/// The names that the connectors of `card` have.
pub open spec fn is_connector(card: Seq<char>, name: Seq<char>) -> bool {
    has_prefix(name, card + "-"@)
}

/// Whether an entry is worth reading for the display: it has the name of a connector of `card`.
pub fn named_connector(card: &str, name: &str) -> (r: bool)
    ensures
        r == is_connector(card@, name@),
{
    starts_with(name, joined_pair(card, "-").as_str())
}

/// A connector of `card` that says whether it is enabled.
pub open spec fn belongs_to(connector: Connector, card: Seq<char>) -> bool {
    is_connector(card, connector.name@) && connector.enabled is Some
}

/// A connector of `card` that says that it is enabled.
pub open spec fn is_lit(connector: Connector, card: Seq<char>) -> bool {
    belongs_to(connector, card) && trimmed((connector.enabled->0)@) == "enabled"@
}

/// Whether a display is driven: some connector of the card is enabled. Not known if none says.
pub open spec fn any_lit(connectors: Seq<Connector>, card: Seq<char>) -> Option<bool> {
    if exists|i: int| 0 <= i < connectors.len() && belongs_to(#[trigger] connectors[i], card) {
        Some(exists|i: int| 0 <= i < connectors.len() && is_lit(#[trigger] connectors[i], card))
    } else {
        None
    }
}

pub fn display_active(card: &str, connectors: &[Connector]) -> (r: Option<bool>)
    ensures
        r == any_lit(connectors@, card@),
{
    let mut found: bool = false;
    let mut active: bool = false;
    for i in 0..connectors.len()
        invariant
            found == exists|j: int| 0 <= j < i && belongs_to(#[trigger] connectors@[j], card@),
            active == exists|j: int| 0 <= j < i && is_lit(#[trigger] connectors@[j], card@),
    {
        let ghost c = connectors@[i as int];
        let ghost found_before = found;
        let ghost active_before = active;
        if named_connector(card, connectors[i].name.as_str()) {
            if let Some(enabled) = &connectors[i].enabled {
                found = true;
                if same(read_string(enabled.as_str()).as_str(), "enabled") {
                    active = true;
                }
            }
        }
        assert(found == (found_before || belongs_to(c, card@)));
        assert(active == (active_before || is_lit(c, card@)));
    }
    if found {
        Some(active)
    } else {
        None
    }
}

/// How many of the statuses are busy.
pub open spec fn busy_count(statuses: Seq<Option<u32>>) -> nat
    decreases statuses.len(),
{
    if statuses.len() == 0 {
        0
    } else {
        busy_count(statuses.drop_last()) + match statuses.last() {
            Some(status) => if is_busy(status) {
                1nat
            } else {
                0nat
            },
            None => 0nat,
        }
    }
}

/// The percentage of busy statuses, rounded to the nearest. Not known if a status could not be
/// read, or if there are fewer than five.
pub open spec fn busy_percentage(statuses: Seq<Option<u32>>) -> Option<nat> {
    if statuses.len() < 5 || exists|i: int|
        0 <= i < statuses.len() && #[trigger] statuses[i] is None {
        None
    } else {
        Some((100 * busy_count(statuses) + statuses.len() / 2) / statuses.len())
    }
}

/// For how many milliseconds the status register is sampled.
pub const SAMPLING_TIME: u64 = 200;

/// The milliseconds between two samples.
pub const SAMPLING_PAUSE: u64 = 8;

/// The most statuses that can be counted in 32 bits.
pub const MAX_SAMPLES: usize = 42_735_992;

proof fn lemma_busy_count(statuses: Seq<Option<u32>>)
    ensures
        busy_count(statuses) <= statuses.len(),
    decreases statuses.len(),
{
    if statuses.len() > 0 {
        lemma_busy_count(statuses.drop_last());
    }
}

/// Sampling goes on until its time is over, or a status cannot be read.
pub open spec fn goes_on(elapsed: u64, statuses: Seq<Option<u32>>) -> bool {
    elapsed < SAMPLING_TIME && (statuses.len() == 0 || statuses.last() is Some)
}

/// Whether one more sample is taken, `elapsed` milliseconds after sampling began, behind those that
/// have been taken.
pub fn samples_on(elapsed: u64, statuses: &[Option<u32>]) -> (r: bool)
    ensures
        r == goes_on(elapsed, statuses@),
{
    let n: usize = statuses.len();
    elapsed < SAMPLING_TIME && (n == 0 || statuses[n - 1].is_some())
}

/// The share of the time that the graphics pipe was at work, by samples of its status register.
pub fn sample_busy(statuses: &[Option<u32>]) -> (r: Option<u32>)
    requires
        statuses@.len() <= MAX_SAMPLES,
    ensures
        match r {
            Some(percent) => busy_percentage(statuses@) == Some(percent as nat) && percent <= 100,
            None => busy_percentage(statuses@) is None,
        },
{
    proof {
        busy_percentage_bounds(statuses@);
    }
    let mut total: u32 = 0;
    let mut busy: u32 = 0;
    for i in 0..statuses.len()
        invariant
            statuses@.len() <= MAX_SAMPLES,
            total == i,
            busy == busy_count(statuses@.take(i as int)),
            busy <= i,
            forall|j: int| 0 <= j < i ==> #[trigger] statuses@[j] is Some,
    {
        assert(statuses@.take(i + 1).drop_last() =~= statuses@.take(i as int));
        match statuses[i] {
            Some(status) => {
                total += 1;
                if status & GUI_ACTIVE != 0 {
                    busy += 1;
                }
            },
            None => {
                return None;
            },
        }
    }
    assert(statuses@.take(statuses@.len() as int) =~= statuses@);
    if total >= 5 {
        Some((100 * busy + total / 2) / total)
    } else {
        None
    }
}

/// The percentage is at most 100; it is 0 if no status is busy, and 100 if all are.
pub proof fn busy_percentage_bounds(statuses: Seq<Option<u32>>)
    ensures
        busy_percentage(statuses) matches Some(percent) ==> percent <= 100 && (busy_count(statuses)
            == 0 ==> percent == 0) && (busy_count(statuses) == statuses.len() ==> percent == 100),
{
    lemma_busy_count(statuses);
    if busy_percentage(statuses) is Some {
        let n = statuses.len() as int;
        let b = busy_count(statuses) as int;
        assert(100 * b + n / 2 < 101 * n);
        assert((100 * b + n / 2) / n <= 100) by (nonlinear_arith)
            requires
                100 * b + n / 2 < 101 * n,
                n > 0,
        ;
        if b == 0 {
            assert((n / 2) / n == 0) by (nonlinear_arith)
                requires
                    n > 0,
            ;
        }
        if b == n {
            assert((100 * n + n / 2) / n == 100) by (nonlinear_arith)
                requires
                    n > 0,
            ;
        }
    }
}

/// If every sample was taken because sampling went on, at the times `times`, only the last of them
/// can have failed; the percentage is then not known exactly if it has, or if there are too few.
pub proof fn only_the_last_sample_can_fail(times: Seq<u64>, statuses: Seq<Option<u32>>)
    requires
        times.len() == statuses.len(),
        forall|k: int|
            0 <= k < statuses.len() ==> goes_on(#[trigger] times[k], statuses.take(k)),
    ensures
        forall|k: int| 0 <= k < statuses.len() - 1 ==> #[trigger] statuses[k] is Some,
        busy_percentage(statuses) is None <==> statuses.len() < 5 || statuses.last() is None,
{
    assert forall|k: int| 0 <= k < statuses.len() - 1 implies #[trigger] statuses[k] is Some by {
        assert(goes_on(times[k + 1], statuses.take(k + 1)));
        assert(statuses.take(k + 1).last() == statuses[k]);
    }
    if statuses.len() > 0 && statuses.last() is None {
        assert(statuses[statuses.len() - 1] is None);
    }
}

// ---------------------------------------------------------------------------
// Collecting
// ---------------------------------------------------------------------------
/// What can be read of a device without opening it.
pub struct DeviceFiles {
    /// The sensor files of each of its monitors.
    pub monitors: Vec<Vec<NamedFile>>,
    /// Its attribute files.
    pub attributes: Vec<NamedFile>,
    /// What stands beside its card.
    pub connectors: Vec<Connector>,
}

/// The sensor files that are worth reading.
pub open spec fn sensor_names() -> Seq<Seq<char>> {
    seq![
        "temp1_input"@,
        "freq1_input"@,
        "freq2_input"@,
        "power1_average"@,
        "power1_cap"@,
        "fan1_input"@,
    ]
}

pub fn sensor_files() -> (r: Vec<String>)
    ensures
        texts(r@) == sensor_names(),
{
    let r: Vec<String> = vec![
        "temp1_input".to_owned(),
        "freq1_input".to_owned(),
        "freq2_input".to_owned(),
        "power1_average".to_owned(),
        "power1_cap".to_owned(),
        "fan1_input".to_owned(),
    ];
    assert(texts(r@) =~= sensor_names());
    r
}

/// The attribute files that are worth reading: only the `amdgpu` driver has any.
pub open spec fn attribute_names(amdgpu: bool) -> Seq<Seq<char>> {
    if amdgpu {
        seq![
            "mem_info_vram_total"@,
            "mem_info_vram_used"@,
            "mem_info_vis_vram_total"@,
            "mem_info_vis_vram_used"@,
            "mem_info_gtt_total"@,
            "mem_info_gtt_used"@,
            "gpu_busy_percent"@,
        ]
    } else {
        Seq::empty()
    }
}

pub fn attribute_files(device: &Device) -> (r: Vec<String>)
    ensures
        texts(r@) == attribute_names(device@.driver == "amdgpu"@),
{
    if same(device.driver.as_str(), "amdgpu") {
        let r: Vec<String> = vec![
            "mem_info_vram_total".to_owned(),
            "mem_info_vram_used".to_owned(),
            "mem_info_vis_vram_total".to_owned(),
            "mem_info_vis_vram_used".to_owned(),
            "mem_info_gtt_total".to_owned(),
            "mem_info_gtt_used".to_owned(),
            "gpu_busy_percent".to_owned(),
        ];
        assert(texts(r@) =~= attribute_names(true));
        r
    } else {
        let r: Vec<String> = Vec::new();
        assert(texts(r@) =~= attribute_names(false));
        r
    }
}

/// The millionths of a watt that the device draws.
pub open spec fn power_in(files: DeviceFiles) -> Option<u64> {
    first_number(files.monitors@, "power1_average"@)
}

/// The millionths of a watt that the device may draw.
pub open spec fn power_cap_in(files: DeviceFiles) -> Option<u64> {
    first_number(files.monitors@, "power1_cap"@)
}

impl DeviceFiles {
    /// The millionths of a watt that the device draws.
    pub fn power(&self) -> (r: Option<u64>)
        ensures
            r == power_in(*self),
    {
        hwmon(&self.monitors, "power1_average")
    }

    /// The millionths of a watt that the device may draw.
    pub fn power_cap(&self) -> (r: Option<u64>)
        ensures
            r == power_cap_in(*self),
    {
        hwmon(&self.monitors, "power1_cap")
    }
}

/// `watts` is how the reading is written: there is one exactly if the other is.
pub open spec fn is_written(microwatts: Option<u64>, watts: Option<WattsView>) -> bool {
    match (microwatts, watts) {
        (Some(microwatts), Some(watts)) => watts.microwatts == microwatts,
        (None, None) => true,
        _ => false,
    }
}

/// Thousandths of a degree in whole degrees.
pub open spec fn degrees(thousandths: Option<u64>) -> Option<i64> {
    match thousandths {
        Some(t) => Some((t / 1000) as i64),
        None => None,
    }
}

fn to_degrees(thousandths: Option<u64>) -> (r: Option<i64>)
    ensures
        r == degrees(thousandths),
{
    match thousandths {
        Some(t) => Some((t / 1000) as i64),
        None => None,
    }
}

/// Hertz in whole megahertz, of which the low 32 bits are kept.
pub open spec fn megahertz(hertz: Option<u64>) -> Option<u32> {
    match hertz {
        Some(hz) => Some((hz as int / 1_000_000 % 0x1_0000_0000) as u32),
        None => None,
    }
}

fn to_megahertz(hertz: Option<u64>) -> (r: Option<u32>)
    ensures
        r == megahertz(hertz),
{
    match hertz {
        Some(hz) => {
            let mhz: u64 = hz / 1_000_000;
            assert(mhz as u32 == mhz % 0x1_0000_0000) by (bit_vector);
            Some(mhz as u32)
        },
        None => None,
    }
}

/// A percentage, if the number is one.
pub open spec fn percentage(n: Option<u64>) -> Option<u32> {
    match n {
        Some(n) => if n <= 100 {
            Some(n as u32)
        } else {
            None
        },
        None => None,
    }
}

/// The number in the attribute file with this name.
pub open spec fn attribute(files: DeviceFiles, name: Seq<char>) -> Option<u64> {
    number_if_read(contents_of(files.attributes@, name))
}

/// What is known before the device has been opened. The attribute files with numbers are those of
/// the `amdgpu` driver.
pub open spec fn first_metrics(
    device: DeviceView,
    files: DeviceFiles,
    power: Option<WattsView>,
    power_cap: Option<WattsView>,
) -> MetricsView {
    let common = MetricsView {
        temperature_c: degrees(first_number(files.monitors@, "temp1_input"@)),
        graphics_mhz: megahertz(first_number(files.monitors@, "freq1_input"@)),
        memory_mhz: megahertz(first_number(files.monitors@, "freq2_input"@)),
        power_watts: power,
        power_cap_watts: power_cap,
        display_active: any_lit(files.connectors@, device.card),
        fan_rpm: first_number(files.monitors@, "fan1_input"@),
        ..unknown_metrics()
    };
    if device.driver == "amdgpu"@ {
        MetricsView {
            memory_total: attribute(files, "mem_info_vram_total"@),
            memory_used: attribute(files, "mem_info_vram_used"@),
            visible_memory_total: attribute(files, "mem_info_vis_vram_total"@),
            visible_memory_used: attribute(files, "mem_info_vis_vram_used"@),
            gtt_total: attribute(files, "mem_info_gtt_total"@),
            gtt_used: attribute(files, "mem_info_gtt_used"@),
            utilization: percentage(attribute(files, "gpu_busy_percent"@)),
            ..common
        }
    } else {
        common
    }
}

/// What is to be done next to collect the readings of a device.
#[derive(Clone, Copy, PartialEq, Eq, Structural, Debug)]
pub enum Request {
    /// Open the device node.
    Open,
    /// Read this sensor of the `amdgpu` driver.
    Sensor(u32),
    /// Ask the `amdgpu` driver for the family of the chip.
    Family,
    /// Sample the status register.
    Busy,
    /// Ask the `radeon` driver for the size of the video memory.
    MemorySize,
    /// Ask the `radeon` driver for the video memory in use.
    MemoryUsage,
    /// Ask the `radeon` driver for the graphics clock.
    GraphicsClock,
    /// Ask the `radeon` driver for the memory clock.
    MemoryClock,
    /// Nothing: everything that can be known is known.
    Done,
}

/// What came of a request.
pub enum Reply {
    /// The node is open.
    Opened,
    /// The node could not be opened, for this reason.
    Refused(String),
    /// The answer to a question.
    Number(u64),
    /// There was no answer.
    Nothing,
}

/// A collection under way.
pub struct Collector {
    /// The device has the `amdgpu` driver.
    pub amdgpu: bool,
    /// The device node.
    pub node: String,
    /// What is known so far.
    pub metrics: Metrics,
    /// The graphics clock that the `radeon` driver answered, 0 before it did.
    pub clock: u32,
    /// What is to be done next.
    pub request: Request,
}

/// What a `Collector` says, its texts as character sequences.
pub struct CollectorView {
    pub amdgpu: bool,
    pub node: Seq<char>,
    pub metrics: MetricsView,
    pub clock: u32,
    pub request: Request,
}

impl View for Collector {
    type V = CollectorView;

    open spec fn view(&self) -> CollectorView {
        CollectorView {
            amdgpu: self.amdgpu,
            node: self.node@,
            metrics: self.metrics@,
            clock: self.clock,
            request: self.request,
        }
    }
}

/// `reply` is one that can come of `request`. Only amounts of memory take more than 32 bits, and
/// samples of the status register make a percentage.
pub open spec fn can_follow(request: Request, reply: Reply) -> bool {
    match reply {
        Reply::Opened => request == Request::Open,
        Reply::Refused(_) => request == Request::Open,
        Reply::Number(n) => match request {
            Request::Open | Request::Done => false,
            Request::MemorySize | Request::MemoryUsage => true,
            Request::Busy => n <= 100,
            _ => n <= u32::MAX,
        },
        Reply::Nothing => request != Request::Open && request != Request::Done,
    }
}

/// The number in a reply, if there is one.
pub open spec fn answer_in(reply: Reply) -> Option<u64> {
    match reply {
        Reply::Number(n) => Some(n),
        _ => None,
    }
}

/// The answer, else what was known before.
pub open spec fn answer_or(reply: Reply, known: Option<u32>) -> Option<u32> {
    match reply {
        Reply::Number(n) => Some(n as u32),
        _ => known,
    }
}

/// Why nothing more is known of a device that could not be opened.
pub open spec fn open_issue(node: Seq<char>, reason: Seq<char>) -> Seq<char> {
    "cannot open "@ + node + ": "@ + reason + "; check render/video device permissions"@
}

/// What follows the attempt to open the node.
pub open spec fn after_open(c: CollectorView, reply: Reply) -> CollectorView {
    match reply {
        Reply::Refused(reason) => CollectorView {
            metrics: MetricsView { issue: Some(open_issue(c.node, reason@)), ..c.metrics },
            request: Request::Done,
            ..c
        },
        _ => CollectorView {
            request: if c.amdgpu {
                Request::Sensor(SENSOR_GRAPHICS_CLOCK)
            } else {
                Request::MemorySize
            },
            ..c
        },
    }
}

/// What follows the question for a sensor: the sensor counts for more than what was known before.
/// The status register is asked for only if no file showed the utilization.
pub open spec fn after_sensor(c: CollectorView, sensor: u32, reply: Reply) -> CollectorView {
    if sensor == SENSOR_GRAPHICS_CLOCK {
        CollectorView {
            metrics: MetricsView {
                graphics_mhz: answer_or(reply, c.metrics.graphics_mhz),
                ..c.metrics
            },
            request: Request::Sensor(SENSOR_MEMORY_CLOCK),
            ..c
        }
    } else if sensor == SENSOR_MEMORY_CLOCK {
        CollectorView {
            metrics: MetricsView {
                memory_mhz: answer_or(reply, c.metrics.memory_mhz),
                ..c.metrics
            },
            request: Request::Sensor(SENSOR_TEMPERATURE),
            ..c
        }
    } else {
        CollectorView {
            metrics: MetricsView {
                temperature_c: match answer_in(reply) {
                    Some(n) => degrees(Some(n)),
                    None => c.metrics.temperature_c,
                },
                ..c.metrics
            },
            request: if c.metrics.utilization is None {
                Request::Family
            } else {
                Request::Done
            },
            ..c
        }
    }
}

/// The families whose status register shows whether the graphics pipe is at work.
pub open spec fn shows_activity(reply: Reply) -> bool {
    answer_in(reply) == Some(110u64) || answer_in(reply) == Some(120u64)
}

/// Why the utilization of a device with the `radeon` driver is not known.
pub open spec fn no_utilization() -> Seq<char> {
    "GPU utilization is unavailable through the radeon DRM query interface"@
}

/// What follows the samples of the status register.
pub open spec fn after_busy(c: CollectorView, reply: Reply) -> CollectorView {
    let metrics = MetricsView { utilization: answer_or(reply, None), ..c.metrics };
    CollectorView {
        metrics: if !c.amdgpu && metrics.utilization is None {
            MetricsView {
                issue: Some(no_utilization()),
                ..metrics
            }
        } else {
            metrics
        },
        request: Request::Done,
        ..c
    }
}

/// What follows the reply to the request of `c`.
pub open spec fn after_reply(c: CollectorView, reply: Reply) -> CollectorView {
    match c.request {
        Request::Open => after_open(c, reply),
        Request::Sensor(sensor) => after_sensor(c, sensor, reply),
        Request::Family => CollectorView {
            request: if shows_activity(reply) {
                Request::Busy
            } else {
                Request::Done
            },
            ..c
        },
        Request::Busy => after_busy(c, reply),
        Request::MemorySize => CollectorView {
            metrics: MetricsView {
                memory_total: match answer_in(reply) {
                    Some(n) => Some(n),
                    None => c.metrics.memory_total,
                },
                ..c.metrics
            },
            request: Request::MemoryUsage,
            ..c
        },
        Request::MemoryUsage => CollectorView {
            metrics: MetricsView {
                memory_used: match answer_in(reply) {
                    Some(n) => Some(n),
                    None => c.metrics.memory_used,
                },
                ..c.metrics
            },
            request: Request::GraphicsClock,
            ..c
        },
        Request::GraphicsClock => CollectorView {
            metrics: MetricsView {
                graphics_mhz: answer_or(reply, c.metrics.graphics_mhz),
                ..c.metrics
            },
            clock: match answer_in(reply) {
                Some(n) => n as u32,
                None => c.clock,
            },
            request: Request::MemoryClock,
            ..c
        },
        Request::MemoryClock => CollectorView {
            metrics: MetricsView {
                memory_mhz: answer_or(reply, c.metrics.memory_mhz),
                ..c.metrics
            },
            request: Request::Busy,
            ..c
        },
        Request::Done => c,
    }
}

/// A collection that begins.
pub open spec fn started(
    device: DeviceView,
    files: DeviceFiles,
    power: Option<WattsView>,
    power_cap: Option<WattsView>,
) -> CollectorView {
    CollectorView {
        amdgpu: device.driver == "amdgpu"@,
        node: device.node,
        metrics: first_metrics(device, files, power, power_cap),
        clock: 0,
        request: Request::Open,
    }
}

/// Begins to collect the readings of `device`. `power` and `power_cap` are what its power and the
/// limit of its power are written as.
pub fn collect(
    device: &Device,
    files: &DeviceFiles,
    power: Option<Watts>,
    power_cap: Option<Watts>,
) -> (r: Collector)
    requires
        is_written(power_in(*files), optional_watts(power)),
        is_written(power_cap_in(*files), optional_watts(power_cap)),
    ensures
        r@ == started(device@, *files, optional_watts(power), optional_watts(power_cap)),
{
    let amdgpu: bool = same(device.driver.as_str(), "amdgpu");
    let mut metrics: Metrics = Metrics::default();
    metrics.temperature_c = to_degrees(hwmon(&files.monitors, "temp1_input"));
    metrics.graphics_mhz = to_megahertz(hwmon(&files.monitors, "freq1_input"));
    metrics.memory_mhz = to_megahertz(hwmon(&files.monitors, "freq2_input"));
    metrics.display_active = display_active(device.card.as_str(), &files.connectors);
    metrics.fan_rpm = hwmon(&files.monitors, "fan1_input");
    if amdgpu {
        let attributes: &Vec<NamedFile> = &files.attributes;
        metrics.memory_total = read_number_of(attributes, "mem_info_vram_total");
        metrics.memory_used = read_number_of(attributes, "mem_info_vram_used");
        metrics.visible_memory_total = read_number_of(attributes, "mem_info_vis_vram_total");
        metrics.visible_memory_used = read_number_of(attributes, "mem_info_vis_vram_used");
        metrics.gtt_total = read_number_of(attributes, "mem_info_gtt_total");
        metrics.gtt_used = read_number_of(attributes, "mem_info_gtt_used");
        metrics.utilization = match read_number_of(attributes, "gpu_busy_percent") {
            Some(n) => if n <= 100 {
                Some(n as u32)
            } else {
                None
            },
            None => None,
        };
    }
    metrics.power_watts = power;
    metrics.power_cap_watts = power_cap;
    Collector { amdgpu, node: device.node.clone(), metrics, clock: 0, request: Request::Open }
}

impl Collector {
    /// Takes the reply to the request.
    pub fn reply(&mut self, reply: Reply)
        requires
            can_follow(old(self)@.request, reply),
        ensures
            final(self)@ == after_reply(old(self)@, reply),
    {
        let request: Request = self.request;
        match request {
            Request::Open => match reply {
                Reply::Refused(reason) => {
                    let mut issue: String = "cannot open ".to_owned();
                    issue.append(self.node.as_str());
                    issue.append(": ");
                    issue.append(reason.as_str());
                    issue.append("; check render/video device permissions");
                    self.metrics.issue = Some(issue);
                    self.request = Request::Done;
                },
                _ => {
                    self.request = if self.amdgpu {
                        Request::Sensor(SENSOR_GRAPHICS_CLOCK)
                    } else {
                        Request::MemorySize
                    };
                },
            },
            Request::Sensor(sensor) => {
                if sensor == SENSOR_GRAPHICS_CLOCK {
                    if let Reply::Number(n) = reply {
                        self.metrics.graphics_mhz = Some(n as u32);
                    }
                    self.request = Request::Sensor(SENSOR_MEMORY_CLOCK);
                } else if sensor == SENSOR_MEMORY_CLOCK {
                    if let Reply::Number(n) = reply {
                        self.metrics.memory_mhz = Some(n as u32);
                    }
                    self.request = Request::Sensor(SENSOR_TEMPERATURE);
                } else {
                    if let Reply::Number(n) = reply {
                        self.metrics.temperature_c = to_degrees(Some(n));
                    }
                    self.request = if self.metrics.utilization.is_none() {
                        Request::Family
                    } else {
                        Request::Done
                    };
                }
            },
            Request::Family => {
                self.request = match reply {
                    Reply::Number(n) => if n == 110 || n == 120 {
                        Request::Busy
                    } else {
                        Request::Done
                    },
                    _ => Request::Done,
                };
            },
            Request::Busy => {
                self.metrics.utilization = match reply {
                    Reply::Number(n) => Some(n as u32),
                    _ => None,
                };
                if !self.amdgpu && self.metrics.utilization.is_none() {
                    self.metrics.issue =
                    Some(
                        "GPU utilization is unavailable through the radeon DRM query interface".to_owned(),
                    );
                }
                self.request = Request::Done;
            },
            Request::MemorySize => {
                if let Reply::Number(n) = reply {
                    self.metrics.memory_total = Some(n);
                }
                self.request = Request::MemoryUsage;
            },
            Request::MemoryUsage => {
                if let Reply::Number(n) = reply {
                    self.metrics.memory_used = Some(n);
                }
                self.request = Request::GraphicsClock;
            },
            Request::GraphicsClock => {
                if let Reply::Number(n) = reply {
                    self.metrics.graphics_mhz = Some(n as u32);
                    self.clock = n as u32;
                }
                self.request = Request::MemoryClock;
            },
            Request::MemoryClock => {
                if let Reply::Number(n) = reply {
                    self.metrics.memory_mhz = Some(n as u32);
                }
                self.request = Request::Busy;
            },
            Request::Done => {},
        }
    }
}

// ---------------------------------------------------------------------------
// Questions
// ---------------------------------------------------------------------------
/// What is handed to the driver for a request.
pub struct Question {
    /// The number of the kernel request.
    pub number: u64,
    /// What is asked; 0 where the kernel request itself says it.
    pub query: u32,
    /// What is asked more closely, by the `amdgpu` driver.
    pub data: [u32; 4],
    /// What stands in the first word of the answer before it comes.
    pub start: u32,
    /// The bytes of the answer.
    pub size: u32,
}

/// What a `Question` says, its words as a sequence.
pub struct QuestionView {
    pub number: u64,
    pub query: u32,
    pub data: Seq<u32>,
    pub start: u32,
    pub size: u32,
}

impl View for Question {
    type V = QuestionView;

    open spec fn view(&self) -> QuestionView {
        QuestionView {
            number: self.number,
            query: self.query,
            data: self.data@,
            start: self.start,
            size: self.size,
        }
    }
}

/// The view of an optional question.
pub open spec fn optional_question(q: Option<Question>) -> Option<QuestionView> {
    match q {
        Some(q) => Some(q@),
        None => None,
    }
}

/// The sensors that are asked for.
pub open spec fn is_sensor(sensor: u32) -> bool {
    sensor == SENSOR_GRAPHICS_CLOCK || sensor == SENSOR_MEMORY_CLOCK || sensor == SENSOR_TEMPERATURE
}

/// A question to the `amdgpu` driver.
pub open spec fn amdgpu_question(
    query: u32,
    data: Seq<u32>,
    start: u32,
    size: u32,
) -> QuestionView {
    QuestionView { number: IOCTL_AMDGPU_INFO, query, data, start, size }
}

/// A question to the `radeon` driver.
pub open spec fn radeon_question(query: u32, start: u32, size: u32) -> QuestionView {
    QuestionView { number: IOCTL_INFO, query, data: seq![0, 0, 0, 0], start, size }
}

/// What is handed to the driver for `request`; nothing if the request is none to a driver, or none
/// that this driver understands. The answer is one word, but for the sizes of the memories (three
/// words of 64 bits, the video memory in the second), the video memory in use (one of 64 bits), and
/// the family of the chip (the last of five words). The status register is asked for with its
/// number where the answer goes, and the memory clock with the graphics clock there.
pub open spec fn question_of(amdgpu: bool, request: Request, clock: u32) -> Option<QuestionView> {
    match (amdgpu, request) {
        (true, Request::Sensor(sensor)) => if is_sensor(sensor) {
            Some(amdgpu_question(AMDGPU_INFO_SENSOR, seq![sensor, 0, 0, 0], 0, 4))
        } else {
            None
        },
        (true, Request::Family) => Some(
            amdgpu_question(AMDGPU_INFO_DEV_INFO, seq![0, 0, 0, 0], 0, 20),
        ),
        (true, Request::Busy) => Some(
            amdgpu_question(
                AMDGPU_INFO_READ_MMR_REG,
                seq![(GRBM_STATUS / 4) as u32, 1, u32::MAX, 0],
                GRBM_STATUS,
                4,
            ),
        ),
        (false, Request::MemorySize) => Some(
            QuestionView {
                number: IOCTL_GEM_INFO,
                query: 0,
                data: seq![0, 0, 0, 0],
                start: 0,
                size: 24,
            },
        ),
        (false, Request::MemoryUsage) => Some(radeon_question(INFO_VRAM_USAGE, 0, 8)),
        (false, Request::GraphicsClock) => Some(radeon_question(INFO_GPU_SCLK, 0, 4)),
        (false, Request::MemoryClock) => Some(radeon_question(INFO_GPU_MCLK, clock, 4)),
        (false, Request::Busy) => Some(radeon_question(INFO_READ_REG, GRBM_STATUS, 4)),
        _ => None,
    }
}

fn ask_amdgpu(query: u32, data: [u32; 4], start: u32, size: u32) -> (r: Option<Question>)
    ensures
        optional_question(r) == Some(amdgpu_question(query, data@, start, size)),
{
    Some(Question { number: IOCTL_AMDGPU_INFO, query, data, start, size })
}

fn ask_radeon(query: u32, start: u32, size: u32) -> (r: Option<Question>)
    ensures
        optional_question(r) == Some(radeon_question(query, start, size)),
{
    let r: Question = Question { number: IOCTL_INFO, query, data: [0, 0, 0, 0], start, size };
    assert(r@.data =~= seq![0, 0, 0, 0]);
    Some(r)
}

/// The question that stands for a request to a device with, or without, the `amdgpu` driver.
/// `clock` is the graphics clock that the `radeon` driver answered, 0 if it did not.
pub fn question(amdgpu: bool, request: Request, clock: u32) -> (r: Option<Question>)
    ensures
        optional_question(r) == question_of(amdgpu, request, clock),
{
    let nothing: [u32; 4] = [0, 0, 0, 0];
    assert(nothing@ =~= seq![0, 0, 0, 0]);
    match request {
        Request::Sensor(sensor) => if amdgpu && (sensor == SENSOR_GRAPHICS_CLOCK || sensor
            == SENSOR_MEMORY_CLOCK || sensor == SENSOR_TEMPERATURE) {
            ask_amdgpu(AMDGPU_INFO_SENSOR, sensor_data(sensor), 0, 4)
        } else {
            None
        },
        Request::Family => if amdgpu {
            ask_amdgpu(AMDGPU_INFO_DEV_INFO, nothing, 0, 20)
        } else {
            None
        },
        Request::Busy => if amdgpu {
            ask_amdgpu(AMDGPU_INFO_READ_MMR_REG, status_register_data(), GRBM_STATUS, 4)
        } else {
            ask_radeon(INFO_READ_REG, GRBM_STATUS, 4)
        },
        Request::MemorySize => if amdgpu {
            None
        } else {
            Some(Question { number: IOCTL_GEM_INFO, query: 0, data: nothing, start: 0, size: 24 })
        },
        Request::MemoryUsage => if amdgpu {
            None
        } else {
            ask_radeon(INFO_VRAM_USAGE, 0, 8)
        },
        Request::GraphicsClock => if amdgpu {
            None
        } else {
            ask_radeon(INFO_GPU_SCLK, 0, 4)
        },
        Request::MemoryClock => if amdgpu {
            None
        } else {
            ask_radeon(INFO_GPU_MCLK, clock, 4)
        },
        Request::Open | Request::Done => None,
    }
}

// ---------------------------------------------------------------------------
// Laws
// ---------------------------------------------------------------------------
/// How many requests there can be from this one on.
pub open spec fn requests_left(request: Request) -> nat {
    match request {
        Request::Open => 6,
        Request::Sensor(sensor) => if sensor == SENSOR_GRAPHICS_CLOCK {
            5
        } else if sensor == SENSOR_MEMORY_CLOCK {
            4
        } else {
            3
        },
        Request::Family => 2,
        Request::Busy => 1,
        Request::MemorySize => 5,
        Request::MemoryUsage => 4,
        Request::GraphicsClock => 3,
        Request::MemoryClock => 2,
        Request::Done => 0,
    }
}

/// Every reply brings the collection nearer to its end.
pub proof fn collecting_ends(c: CollectorView, reply: Reply)
    requires
        can_follow(c.request, reply),
    ensures
        requests_left(after_reply(c, reply).request) < requests_left(c.request),
{
}

/// What follows the replies, one behind the other.
pub open spec fn after_replies(c: CollectorView, replies: Seq<Reply>) -> CollectorView
    decreases replies.len(),
{
    if replies.len() == 0 {
        c
    } else {
        after_reply(after_replies(c, replies.drop_last()), replies.last())
    }
}

/// Each of the replies can come of the request before it.
pub open spec fn is_exchange(c: CollectorView, replies: Seq<Reply>) -> bool
    decreases replies.len(),
{
    replies.len() == 0 || (is_exchange(c, replies.drop_last()) && can_follow(
        after_replies(c, replies.drop_last()).request,
        replies.last(),
    ))
}

proof fn lemma_exchange(c: CollectorView, replies: Seq<Reply>)
    requires
        is_exchange(c, replies),
    ensures
        requests_left(after_replies(c, replies).request) + replies.len() <= requests_left(
            c.request,
        ),
    decreases replies.len(),
{
    if replies.len() > 0 {
        lemma_exchange(c, replies.drop_last());
        collecting_ends(after_replies(c, replies.drop_last()), replies.last());
    }
}

/// However the machine replies, a collection is over after six replies at most.
pub proof fn collections_are_short(c: CollectorView, replies: Seq<Reply>)
    requires
        c.request == Request::Open,
        is_exchange(c, replies),
    ensures
        replies.len() <= 6,
        replies.len() == 6 ==> after_replies(c, replies).request == Request::Done,
{
    lemma_exchange(c, replies);
}

/// A device that cannot be opened keeps what its files showed, and says why there is no more.
pub proof fn refusal_keeps_readings(c: CollectorView, reason: String)
    requires
        c.request == Request::Open,
    ensures
        ({
            let after = after_reply(c, Reply::Refused(reason));
            &&& after.request == Request::Done
            &&& after.metrics.issue == Some(open_issue(c.node, reason@))
            &&& (MetricsView { issue: c.metrics.issue, ..after.metrics }) == c.metrics
        }),
{
}

/// Clocks and temperature are never lost to a sensor that does not answer.
pub proof fn silence_keeps_readings(c: CollectorView)
    requires
        c.request != Request::Open,
        c.request != Request::Busy,
    ensures
        after_reply(c, Reply::Nothing).metrics == c.metrics,
{
}

/// The utilization is a percentage at every step.
pub proof fn utilization_stays_a_percentage(c: CollectorView, reply: Reply)
    requires
        can_follow(c.request, reply),
        c.metrics.utilization matches Some(percent) ==> percent <= 100,
    ensures
        after_reply(c, reply).metrics.utilization matches Some(percent) ==> percent <= 100,
{
}

/// The request is one that the driver of the device understands.
pub open spec fn suits_driver(c: CollectorView) -> bool {
    match c.request {
        Request::Sensor(sensor) => c.amdgpu && is_sensor(sensor),
        Request::Family => c.amdgpu,
        Request::MemorySize | Request::MemoryUsage | Request::GraphicsClock
        | Request::MemoryClock => !c.amdgpu,
        _ => true,
    }
}

/// A device is only asked what its driver understands, and stays the device that it was.
pub proof fn requests_suit_the_driver(c: CollectorView, reply: Reply)
    requires
        suits_driver(c),
        can_follow(c.request, reply),
    ensures
        suits_driver(after_reply(c, reply)),
        after_reply(c, reply).amdgpu == c.amdgpu,
        after_reply(c, reply).node == c.node,
{
}

/// The status register of an `amdgpu` device is only sampled if no file showed its utilization.
pub proof fn sampling_is_a_last_resort(c: CollectorView, reply: Reply)
    requires
        suits_driver(c),
        can_follow(c.request, reply),
        c.amdgpu,
        c.request == Request::Family ==> c.metrics.utilization is None,
    ensures
        after_reply(c, reply).request == Request::Family || after_reply(c, reply).request
            == Request::Busy ==> after_reply(c, reply).metrics.utilization is None,
{
}

/// A question that only reads: the numbers of the three kernel requests, each with the queries that
/// are known, and each for its own driver.
pub open spec fn only_reads(q: QuestionView, amdgpu: bool) -> bool {
    if amdgpu {
        q.number == 0x4020_6445 && (q.query == 0x15 || q.query == 0x16 || q.query == 0x1d)
    } else {
        q.number == 0xc018_645c || (q.number == 0xc010_6467 && (q.query == 0x1e || q.query == 0x22
            || q.query == 0x23 || q.query == 0x24))
    }
}

/// Whatever is requested, no question but those that read is handed to a driver. A request that
/// suits the driver has a question exactly if it is one to the driver.
pub proof fn only_reading_questions_are_asked(c: CollectorView)
    ensures
        question_of(c.amdgpu, c.request, c.clock) matches Some(q) ==> only_reads(q, c.amdgpu),
        suits_driver(c) ==> (question_of(c.amdgpu, c.request, c.clock) is None <==> c.request
            == Request::Open || c.request == Request::Done),
{
}

proof fn lemma_exchange_suits(c: CollectorView, replies: Seq<Reply>)
    requires
        suits_driver(c),
        is_exchange(c, replies),
    ensures
        suits_driver(after_replies(c, replies)),
        after_replies(c, replies).amdgpu == c.amdgpu,
        after_replies(c, replies).node == c.node,
    decreases replies.len(),
{
    if replies.len() > 0 {
        lemma_exchange_suits(c, replies.drop_last());
        requests_suit_the_driver(after_replies(c, replies.drop_last()), replies.last());
    }
}

/// A collection only reads: however the machine replies, every question that comes up is one of
/// those that read, and for the driver that the device has.
pub proof fn collections_only_read(c: CollectorView, replies: Seq<Reply>)
    requires
        c.request == Request::Open,
        is_exchange(c, replies),
    ensures
        ({
            let now = after_replies(c, replies);
            let q = question_of(now.amdgpu, now.request, now.clock);
            &&& now.amdgpu == c.amdgpu
            &&& q matches Some(q) ==> only_reads(q, c.amdgpu)
            &&& q is None <==> now.request == Request::Open || now.request == Request::Done
        }),
{
    lemma_exchange_suits(c, replies);
    only_reading_questions_are_asked(after_replies(c, replies));
}

/// The utilization that a collection ends with is a percentage, if one is known.
pub proof fn utilization_is_a_percentage(
    device: DeviceView,
    files: DeviceFiles,
    power: Option<WattsView>,
    power_cap: Option<WattsView>,
    c: CollectorView,
    replies: Seq<Reply>,
)
    requires
        c == started(device, files, power, power_cap),
        is_exchange(c, replies),
    ensures
        after_replies(c, replies).metrics.utilization matches Some(percent) ==> percent <= 100,
    decreases replies.len(),
{
    if replies.len() > 0 {
        utilization_is_a_percentage(device, files, power, power_cap, c, replies.drop_last());
        utilization_stays_a_percentage(after_replies(c, replies.drop_last()), replies.last());
    }
}

/// The node was refused.
pub open spec fn is_refused(replies: Seq<Reply>) -> bool {
    replies.len() > 0 && replies[0] is Refused
}

/// What is known of the issue on the way: there is none before the end, but for a refusal.
proof fn lemma_issue(
    device: DeviceView,
    files: DeviceFiles,
    power: Option<WattsView>,
    power_cap: Option<WattsView>,
    c: CollectorView,
    replies: Seq<Reply>,
)
    requires
        c == started(device, files, power, power_cap),
        is_exchange(c, replies),
    ensures
        ({
            let now = after_replies(c, replies);
            if is_refused(replies) {
                &&& now.request == Request::Done
                &&& replies[0] matches Reply::Refused(reason) && now.metrics.issue == Some(
                    open_issue(c.node, reason@),
                )
            } else if now.amdgpu || now.request != Request::Done {
                now.metrics.issue is None
            } else if now.metrics.utilization is None {
                now.metrics.issue == Some(no_utilization())
            } else {
                now.metrics.issue is None
            }
        }),
    decreases replies.len(),
{
    if replies.len() > 0 {
        let front = replies.drop_last();
        lemma_issue(device, files, power, power_cap, c, front);
        lemma_exchange_suits(c, front);
        if front.len() == 0 {
            assert(replies[0] == replies.last());
        } else {
            assert(replies[0] == front[0]);
            lemma_opened(c, front);
        }
    }
}

/// The node is opened once.
proof fn lemma_opened(c: CollectorView, replies: Seq<Reply>)
    requires
        c.request == Request::Open,
        is_exchange(c, replies),
        replies.len() > 0,
    ensures
        after_replies(c, replies).request != Request::Open,
{
    lemma_exchange(c, replies);
}

/// A collection that is over has an issue exactly if the node was refused, or the driver is not
/// `amdgpu` and no utilization is known; and the issue says which.
pub proof fn issue_says_what_is_missing(
    device: DeviceView,
    files: DeviceFiles,
    power: Option<WattsView>,
    power_cap: Option<WattsView>,
    c: CollectorView,
    replies: Seq<Reply>,
)
    requires
        c == started(device, files, power, power_cap),
        is_exchange(c, replies),
        after_replies(c, replies).request == Request::Done,
    ensures
        ({
            let m = after_replies(c, replies).metrics;
            &&& m.issue is Some <==> is_refused(replies) || (!c.amdgpu && m.utilization is None)
            &&& is_refused(replies) ==> (replies[0] matches Reply::Refused(reason) && m.issue
                == Some(open_issue(c.node, reason@)))
            &&& !is_refused(replies) && m.issue is Some ==> m.issue == Some(no_utilization())
        }),
{
    lemma_issue(device, files, power, power_cap, c, replies);
    lemma_exchange_suits(c, replies);
}

proof fn lemma_same_sensor(a: Seq<Vec<NamedFile>>, b: Seq<Vec<NamedFile>>, name: Seq<char>)
    requires
        a.len() == b.len(),
        forall|i: int|
            0 <= i < a.len() ==> contents_of((#[trigger] a[i])@, name) == contents_of(b[i]@, name),
    ensures
        first_number(a, name) == first_number(b, name),
    decreases a.len(),
{
    if a.len() > 0 {
        let x = a.skip(1);
        let y = b.skip(1);
        assert(contents_of(a[0]@, name) == contents_of(b[0]@, name));
        assert forall|i: int| 0 <= i < x.len() implies contents_of((#[trigger] x[i])@, name)
            == contents_of(y[i]@, name) by {
            assert(contents_of(a[i + 1]@, name) == contents_of(b[i + 1]@, name));
        }
        lemma_same_sensor(x, y, name);
    }
}

/// The connectors of `card` in the two lists say the same.
pub open spec fn same_connectors(a: Seq<Connector>, b: Seq<Connector>, card: Seq<char>) -> bool {
    a.len() == b.len() && forall|i: int|
        0 <= i < a.len() ==> (#[trigger] a[i]).name@ == (#[trigger] b[i]).name@ && (is_connector(
            card,
            a[i].name@,
        ) ==> optional(a[i].enabled) == optional(b[i].enabled))
}

proof fn lemma_same_display(a: Seq<Connector>, b: Seq<Connector>, card: Seq<char>)
    requires
        same_connectors(a, b, card),
    ensures
        any_lit(a, card) == any_lit(b, card),
{
    assert forall|i: int| 0 <= i < a.len() implies belongs_to(#[trigger] a[i], card) == belongs_to(
        #[trigger] b[i],
        card,
    ) && is_lit(a[i], card) == is_lit(b[i], card) by {
        assert(a[i].name@ == b[i].name@);
    }
    if exists|i: int| 0 <= i < a.len() && belongs_to(#[trigger] a[i], card) {
        let i = choose|i: int| 0 <= i < a.len() && belongs_to(#[trigger] a[i], card);
        assert(belongs_to(b[i], card));
    }
    if exists|i: int| 0 <= i < b.len() && belongs_to(#[trigger] b[i], card) {
        let i = choose|i: int| 0 <= i < b.len() && belongs_to(#[trigger] b[i], card);
        assert(belongs_to(a[i], card));
    }
    if exists|i: int| 0 <= i < a.len() && is_lit(#[trigger] a[i], card) {
        let i = choose|i: int| 0 <= i < a.len() && is_lit(#[trigger] a[i], card);
        assert(is_lit(b[i], card));
    }
    if exists|i: int| 0 <= i < b.len() && is_lit(#[trigger] b[i], card) {
        let i = choose|i: int| 0 <= i < b.len() && is_lit(#[trigger] b[i], card);
        assert(is_lit(a[i], card));
    }
}

/// Nothing but the files that are named needs to be read: the sensor files of the monitors, the
/// attribute files of the driver, and the connectors of the card.
pub proof fn other_files_do_not_matter(
    device: DeviceView,
    files: DeviceFiles,
    others: DeviceFiles,
    power: Option<WattsView>,
    power_cap: Option<WattsView>,
)
    requires
        files.monitors@.len() == others.monitors@.len(),
        forall|i: int, name: Seq<char>|
            0 <= i < files.monitors@.len() && sensor_names().contains(name) ==> #[trigger]
            contents_of(files.monitors@[i]@, name) == contents_of(others.monitors@[i]@, name),
        forall|name: Seq<char>|
            attribute_names(device.driver == "amdgpu"@).contains(name) ==> #[trigger] contents_of(
                files.attributes@,
                name,
            ) == contents_of(others.attributes@, name),
        same_connectors(files.connectors@, others.connectors@, device.card),
    ensures
        started(device, files, power, power_cap) == started(device, others, power, power_cap),
        power_in(files) == power_in(others),
        power_cap_in(files) == power_cap_in(others),
{
    let a = files.monitors@;
    let b = others.monitors@;
    let sensors = sensor_names();
    assert forall|k: int| 0 <= k < sensors.len() implies first_number(a, #[trigger] sensors[k])
        == first_number(b, sensors[k]) by {
        let name = sensors[k];
        assert(sensors.contains(name));
        assert forall|i: int| 0 <= i < a.len() implies contents_of((#[trigger] a[i])@, name)
            == contents_of(b[i]@, name) by {
            assert(contents_of(files.monitors@[i]@, name) == contents_of(
                others.monitors@[i]@,
                name,
            ));
        }
        lemma_same_sensor(a, b, name);
    }
    assert(sensors[0] == "temp1_input"@ && sensors[1] == "freq1_input"@ && sensors[2]
        == "freq2_input"@ && sensors[3] == "power1_average"@ && sensors[4] == "power1_cap"@
        && sensors[5] == "fan1_input"@);
    lemma_same_display(files.connectors@, others.connectors@, device.card);
    if device.driver == "amdgpu"@ {
        let names = attribute_names(true);
        assert forall|k: int| 0 <= k < names.len() implies attribute(files, #[trigger] names[k])
            == attribute(others, names[k]) by {
            assert(names.contains(names[k]));
        }
        assert(names[0] == "mem_info_vram_total"@ && names[1] == "mem_info_vram_used"@ && names[2]
            == "mem_info_vis_vram_total"@ && names[3] == "mem_info_vis_vram_used"@ && names[4]
            == "mem_info_gtt_total"@ && names[5] == "mem_info_gtt_used"@ && names[6]
            == "gpu_busy_percent"@);
    }
}

/// The file that counts among those with one name is the first: what it holds is what is read, and
/// nothing is read if there is none.
pub proof fn the_first_file_of_a_name_counts(files: Seq<NamedFile>, name: Seq<char>)
    ensures
        forall|i: int|
            0 <= i < files.len() && (#[trigger] files[i]).name@ == name && (forall|j: int|
                0 <= j < i ==> (#[trigger] files[j]).name@ != name) ==> contents_of(files, name)
                == optional(files[i].contents),
        (forall|j: int| 0 <= j < files.len() ==> (#[trigger] files[j]).name@ != name)
            ==> contents_of(files, name) is None,
    decreases files.len(),
{
    if files.len() > 0 {
        let rest = files.skip(1);
        the_first_file_of_a_name_counts(rest, name);
        assert forall|i: int|
            0 <= i < files.len() && (#[trigger] files[i]).name@ == name && (forall|j: int|
                0 <= j < i ==> (#[trigger] files[j]).name@ != name) implies contents_of(files, name)
            == optional(files[i].contents) by {
            if i > 0 {
                assert(files[0].name@ != name);
                assert(rest[i - 1] == files[i]);
                assert forall|j: int| 0 <= j < i - 1 implies (#[trigger] rest[j]).name@ != name by {
                    assert(rest[j] == files[j + 1]);
                }
            }
        }
        if forall|j: int| 0 <= j < files.len() ==> (#[trigger] files[j]).name@ != name {
            assert(files[0].name@ != name);
            assert forall|j: int| 0 <= j < rest.len() implies (#[trigger] rest[j]).name@ != name by {
                assert(rest[j] == files[j + 1]);
            }
        }
    }
}

/// The monitor that counts is the first that has a number under the name.
pub proof fn the_first_monitor_with_a_number_counts(
    monitors: Seq<Vec<NamedFile>>,
    name: Seq<char>,
)
    ensures
        forall|i: int|
            0 <= i < monitors.len() && number_if_read(contents_of((#[trigger] monitors[i])@, name))
                is Some && (forall|j: int|
                0 <= j < i ==> number_if_read(contents_of((#[trigger] monitors[j])@, name)) is None)
                ==> first_number(monitors, name) == number_if_read(
                contents_of(monitors[i]@, name),
            ),
        (forall|j: int|
            0 <= j < monitors.len() ==> number_if_read(
                contents_of((#[trigger] monitors[j])@, name),
            ) is None) ==> first_number(monitors, name) is None,
    decreases monitors.len(),
{
    if monitors.len() > 0 {
        let rest = monitors.skip(1);
        the_first_monitor_with_a_number_counts(rest, name);
        assert forall|i: int|
            0 <= i < monitors.len() && number_if_read(contents_of((#[trigger] monitors[i])@, name))
                is Some && (forall|j: int|
                0 <= j < i ==> number_if_read(contents_of((#[trigger] monitors[j])@, name)) is None)
            implies first_number(monitors, name) == number_if_read(
            contents_of(monitors[i]@, name),
        ) by {
            if i > 0 {
                assert(number_if_read(contents_of(monitors[0]@, name)) is None);
                assert(rest[i - 1] == monitors[i]);
                assert forall|j: int| 0 <= j < i - 1 implies number_if_read(
                    contents_of((#[trigger] rest[j])@, name),
                ) is None by {
                    assert(rest[j] == monitors[j + 1]);
                }
            }
        }
        if forall|j: int|
            0 <= j < monitors.len() ==> number_if_read(
                contents_of((#[trigger] monitors[j])@, name),
            ) is None {
            assert(number_if_read(contents_of(monitors[0]@, name)) is None);
            assert forall|j: int| 0 <= j < rest.len() implies number_if_read(
                contents_of((#[trigger] rest[j])@, name),
            ) is None by {
                assert(rest[j] == monitors[j + 1]);
            }
        }
    }
}

/// A file that holds a number in decimal and a line feed, as the kernel writes them, is read as
/// that number.
pub proof fn numbers_in_files_are_read(n: u64)
    ensures
        number_if_read(Some(decimal_of(n as nat))) == Some(n),
        number_if_read(Some(decimal_of(n as nat).push('\n'))) == Some(n),
        number_if_read(None) is None,
{
    let digits = decimal_of(n as nat);
    decimal_reads_back(n as nat, u64::MAX as nat);
    assert(digits.len() > 0);
    assert(is_digit(digits[0]) && is_digit(digits[digits.len() - 1]));
    lemma_trimmed_stays(digits);
    lemma_trimmed_line(digits);
}

/// A text with no white space at its ends stays as it is.
proof fn lemma_trimmed_stays(s: Seq<char>)
    requires
        s.len() > 0,
        !is_space(s[0]),
        !is_space(s.last()),
    ensures
        trimmed(s) == s,
{
}

/// The line feed behind such a text is trimmed.
proof fn lemma_trimmed_line(s: Seq<char>)
    requires
        s.len() > 0,
        !is_space(s[0]),
        !is_space(s.last()),
    ensures
        trimmed(s.push('\n')) == s,
{
    let line = s.push('\n');
    assert(line[0] == s[0]);
    assert(line.drop_last() =~= s);
    assert(trimmed_start(line) == line);
    reveal_with_fuel(trimmed_end, 2);
}

/// `mhz` is `hz` in whole megahertz, of which the low 32 bits are kept.
pub open spec fn is_in_megahertz(hz: Option<u64>, mhz: Option<u32>) -> bool {
    match (hz, mhz) {
        (Some(hz), Some(mhz)) => (hz - mhz * 1_000_000) % 4_294_967_296_000_000 < 1_000_000,
        (None, None) => true,
        _ => false,
    }
}

/// `degrees` are `thousandths` of a degree in whole degrees.
pub open spec fn is_in_degrees(thousandths: Option<u64>, degrees: Option<i64>) -> bool {
    match (thousandths, degrees) {
        (Some(t), Some(d)) => d * 1_000 <= t < d * 1_000 + 1_000,
        (None, None) => true,
        _ => false,
    }
}

/// What the files show, each reading under the name of its file, before a driver is asked.
pub proof fn files_show_their_readings(
    device: DeviceView,
    files: DeviceFiles,
    power: Option<WattsView>,
    power_cap: Option<WattsView>,
)
    ensures
        ({
            let c = started(device, files, power, power_cap);
            let m = c.metrics;
            let amdgpu = device.driver == "amdgpu"@;
            &&& c.request == Request::Open
            &&& c.amdgpu == amdgpu
            &&& c.node == device.node
            &&& c.clock == 0
            &&& is_in_degrees(first_number(files.monitors@, "temp1_input"@), m.temperature_c)
            &&& is_in_megahertz(first_number(files.monitors@, "freq1_input"@), m.graphics_mhz)
            &&& is_in_megahertz(first_number(files.monitors@, "freq2_input"@), m.memory_mhz)
            &&& m.fan_rpm == first_number(files.monitors@, "fan1_input"@)
            &&& m.power_watts == power
            &&& m.power_cap_watts == power_cap
            &&& m.display_active == any_lit(files.connectors@, device.card)
            &&& m.issue is None
            &&& amdgpu ==> {
                let number = |name: Seq<char>| number_if_read(contents_of(files.attributes@, name));
                &&& m.memory_total == number("mem_info_vram_total"@)
                &&& m.memory_used == number("mem_info_vram_used"@)
                &&& m.visible_memory_total == number("mem_info_vis_vram_total"@)
                &&& m.visible_memory_used == number("mem_info_vis_vram_used"@)
                &&& m.gtt_total == number("mem_info_gtt_total"@)
                &&& m.gtt_used == number("mem_info_gtt_used"@)
                &&& match number("gpu_busy_percent"@) {
                    Some(n) => if n <= 100 {
                        m.utilization matches Some(percent) && percent == n
                    } else {
                        m.utilization is None
                    },
                    None => m.utilization is None,
                }
            }
            &&& !amdgpu ==> m.memory_total is None && m.memory_used is None
                && m.visible_memory_total is None && m.visible_memory_used is None
                && m.gtt_total is None && m.gtt_used is None && m.utilization is None
        }),
{
}

/// The power that is shown is written from the file of the power, and its limit from the file of
/// the limit.
pub proof fn power_is_of_its_file(files: DeviceFiles, power: WattsView, power_cap: WattsView)
    requires
        is_written(power_in(files), Some(power)),
        is_written(power_cap_in(files), Some(power_cap)),
    ensures
        first_number(files.monitors@, "power1_average"@) == Some(power.microwatts),
        first_number(files.monitors@, "power1_cap"@) == Some(power_cap.microwatts),
{
}

/// An answer to one question changes the reading that was asked for, to the answer, and no other.
pub proof fn an_answer_changes_its_reading_only(c: CollectorView, n: u64)
    requires
        can_follow(c.request, Reply::Number(n)),
        suits_driver(c),
    ensures
        ({
            let m = after_reply(c, Reply::Number(n)).metrics;
            match c.request {
                Request::Sensor(sensor) => if sensor == 1 {
                    m == (MetricsView { graphics_mhz: Some(n as u32), ..c.metrics })
                } else if sensor == 2 {
                    m == (MetricsView { memory_mhz: Some(n as u32), ..c.metrics })
                } else {
                    is_in_degrees(Some(n), m.temperature_c) && m == (MetricsView {
                        temperature_c: m.temperature_c,
                        ..c.metrics
                    })
                },
                Request::MemorySize => m == (MetricsView { memory_total: Some(n), ..c.metrics }),
                Request::MemoryUsage => m == (MetricsView { memory_used: Some(n), ..c.metrics }),
                Request::GraphicsClock => m == (MetricsView {
                    graphics_mhz: Some(n as u32),
                    ..c.metrics
                }),
                Request::MemoryClock => m == (MetricsView {
                    memory_mhz: Some(n as u32),
                    ..c.metrics
                }),
                Request::Busy => m == (MetricsView { utilization: Some(n as u32), ..c.metrics }),
                _ => m == c.metrics,
            }
        }),
{
}

/// The order of the questions to the `amdgpu` driver, and what is known after `n` of the replies.
proof fn lemma_amdgpu_steps(c: CollectorView, replies: Seq<Reply>)
    requires
        c.request == Request::Open,
        c.amdgpu,
        is_exchange(c, replies),
        !is_refused(replies),
    ensures
        ({
            let now = after_replies(c, replies);
            let n = replies.len();
            &&& now.amdgpu
            &&& n == 0 ==> now == c
            &&& n == 1 ==> now.request == Request::Sensor(1)
            &&& n == 2 ==> now.request == Request::Sensor(2)
            &&& n == 3 ==> now.request == Request::Sensor(3)
            &&& n == 4 ==> now.request == if c.metrics.utilization is None {
                Request::Family
            } else {
                Request::Done
            }
            &&& n == 5 ==> c.metrics.utilization is None && now.request == if replies[4]
                == Reply::Number(110) || replies[4] == Reply::Number(120) {
                Request::Busy
            } else {
                Request::Done
            }
            &&& n == 6 ==> c.metrics.utilization is None && (replies[4] == Reply::Number(110)
                || replies[4] == Reply::Number(120)) && now.request == Request::Done
            &&& n <= 6
            &&& now.metrics == (MetricsView {
                graphics_mhz: if n > 1 {
                    answer_or(replies[1], c.metrics.graphics_mhz)
                } else {
                    c.metrics.graphics_mhz
                },
                memory_mhz: if n > 2 {
                    answer_or(replies[2], c.metrics.memory_mhz)
                } else {
                    c.metrics.memory_mhz
                },
                temperature_c: now.metrics.temperature_c,
                utilization: if n > 5 {
                    answer_or(replies[5], None)
                } else {
                    c.metrics.utilization
                },
                ..c.metrics
            })
            &&& n <= 3 ==> now.metrics.temperature_c == c.metrics.temperature_c
            &&& n > 3 ==> match replies[3] {
                Reply::Number(t) => is_in_degrees(Some(t), now.metrics.temperature_c),
                _ => now.metrics.temperature_c == c.metrics.temperature_c,
            }
        }),
    decreases replies.len(),
{
    if replies.len() > 0 {
        let front = replies.drop_last();
        if front.len() > 0 {
            assert(front[0] == replies[0]);
        }
        lemma_amdgpu_steps(c, front);
        assert(forall|i: int| 0 <= i < front.len() ==> front[i] == replies[i]);
        assert(replies[replies.len() - 1] == replies.last());
    }
}

/// What a device with the `amdgpu` driver is shown to be like, once it could be opened: the sensors
/// of the clocks and of the temperature count for more than the files, each for its own reading;
/// the utilization is that of the file, else that of the samples; everything else is what the files
/// show.
pub proof fn amdgpu_readings_are_the_answers(
    device: DeviceView,
    files: DeviceFiles,
    power: Option<WattsView>,
    power_cap: Option<WattsView>,
    replies: Seq<Reply>,
)
    requires
        device.driver == "amdgpu"@,
        is_exchange(started(device, files, power, power_cap), replies),
        after_replies(started(device, files, power, power_cap), replies).request == Request::Done,
        !is_refused(replies),
    ensures
        ({
            let before = started(device, files, power, power_cap).metrics;
            let m = after_replies(started(device, files, power, power_cap), replies).metrics;
            &&& replies.len() >= 4
            &&& match replies[1] {
                Reply::Number(n) => m.graphics_mhz == Some(n as u32),
                _ => is_in_megahertz(
                    first_number(files.monitors@, "freq1_input"@),
                    m.graphics_mhz,
                ),
            }
            &&& match replies[2] {
                Reply::Number(n) => m.memory_mhz == Some(n as u32),
                _ => is_in_megahertz(first_number(files.monitors@, "freq2_input"@), m.memory_mhz),
            }
            &&& match replies[3] {
                Reply::Number(n) => is_in_degrees(Some(n), m.temperature_c),
                _ => is_in_degrees(
                    first_number(files.monitors@, "temp1_input"@),
                    m.temperature_c,
                ),
            }
            &&& before.utilization is Some ==> m.utilization == before.utilization && replies.len()
                == 4
            &&& before.utilization is None ==> match m.utilization {
                Some(percent) => replies.len() == 6 && (replies[4] == Reply::Number(110)
                    || replies[4] == Reply::Number(120)) && replies[5] == Reply::Number(
                    percent as u64,
                ),
                None => replies.len() == 5 && replies[4] != Reply::Number(110) && replies[4]
                    != Reply::Number(120) || replies.len() == 6 && replies[5] == Reply::Nothing,
            }
            &&& m == (MetricsView {
                graphics_mhz: m.graphics_mhz,
                memory_mhz: m.memory_mhz,
                temperature_c: m.temperature_c,
                utilization: m.utilization,
                ..before
            })
        }),
{
    let c = started(device, files, power, power_cap);
    lemma_amdgpu_steps(c, replies);
    files_show_their_readings(device, files, power, power_cap);
    lemma_replies_fit(c, replies);
}

/// What is not the first reply is an answer or none.
proof fn lemma_replies_fit(c: CollectorView, replies: Seq<Reply>)
    requires
        c.request == Request::Open,
        is_exchange(c, replies),
    ensures
        forall|i: int|
            0 < i < replies.len() ==> (#[trigger] replies[i]) is Number || replies[i] == Reply::Nothing,
        replies.len() == 6 && c.amdgpu ==> (replies[5] matches Reply::Number(n) ==> n <= 100),
    decreases replies.len(),
{
    if replies.len() > 1 {
        let front = replies.drop_last();
        lemma_replies_fit(c, front);
        lemma_opened(c, front);
        assert forall|i: int| 0 < i < replies.len() implies (#[trigger] replies[i]) is Number
            || replies[i] == Reply::Nothing by {
            if i < front.len() {
                assert(front[i] == replies[i]);
            } else {
                assert(replies[i] == replies.last());
            }
        }
        if replies.len() == 6 && c.amdgpu && !is_refused(front) {
            lemma_amdgpu_steps(c, front);
        }
        if is_refused(front) {
            lemma_refused_is_over(c, front);
        }
    }
}

proof fn lemma_refused_is_over(c: CollectorView, replies: Seq<Reply>)
    requires
        c.request == Request::Open,
        is_exchange(c, replies),
        is_refused(replies),
    ensures
        after_replies(c, replies).request == Request::Done,
        replies.len() == 1,
    decreases replies.len(),
{
    let front = replies.drop_last();
    if front.len() > 0 {
        assert(front[0] == replies[0]);
        lemma_refused_is_over(c, front);
    } else {
        assert(replies[0] == replies.last());
    }
}

/// The same of the questions to the `radeon` driver.
proof fn lemma_radeon_steps(c: CollectorView, replies: Seq<Reply>)
    requires
        c.request == Request::Open,
        !c.amdgpu,
        is_exchange(c, replies),
        !is_refused(replies),
    ensures
        ({
            let now = after_replies(c, replies);
            let n = replies.len();
            &&& !now.amdgpu
            &&& n == 0 ==> now == c
            &&& n == 1 ==> now.request == Request::MemorySize
            &&& n == 2 ==> now.request == Request::MemoryUsage
            &&& n == 3 ==> now.request == Request::GraphicsClock
            &&& n == 4 ==> now.request == Request::MemoryClock
            &&& n == 5 ==> now.request == Request::Busy
            &&& n == 6 ==> now.request == Request::Done
            &&& n <= 6
            &&& now.clock == if n > 3 {
                match replies[3] {
                    Reply::Number(mhz) => mhz as u32,
                    _ => c.clock,
                }
            } else {
                c.clock
            }
            &&& now.metrics == (MetricsView {
                memory_total: if n > 1 {
                    match replies[1] {
                        Reply::Number(bytes) => Some(bytes),
                        _ => c.metrics.memory_total,
                    }
                } else {
                    c.metrics.memory_total
                },
                memory_used: if n > 2 {
                    match replies[2] {
                        Reply::Number(bytes) => Some(bytes),
                        _ => c.metrics.memory_used,
                    }
                } else {
                    c.metrics.memory_used
                },
                graphics_mhz: if n > 3 {
                    answer_or(replies[3], c.metrics.graphics_mhz)
                } else {
                    c.metrics.graphics_mhz
                },
                memory_mhz: if n > 4 {
                    answer_or(replies[4], c.metrics.memory_mhz)
                } else {
                    c.metrics.memory_mhz
                },
                utilization: if n > 5 {
                    answer_or(replies[5], None)
                } else {
                    c.metrics.utilization
                },
                issue: now.metrics.issue,
                ..c.metrics
            })
        }),
    decreases replies.len(),
{
    if replies.len() > 0 {
        let front = replies.drop_last();
        if front.len() > 0 {
            assert(front[0] == replies[0]);
        }
        lemma_radeon_steps(c, front);
        assert(forall|i: int| 0 <= i < front.len() ==> front[i] == replies[i]);
        assert(replies[replies.len() - 1] == replies.last());
    }
}

/// What a device with the `radeon` driver is shown to be like, once it could be opened: memory,
/// clocks and utilization are what the driver answered, each to its own question; a clock that it
/// did not answer is that of the files, and everything else is what the files show.
pub proof fn radeon_readings_are_the_answers(
    device: DeviceView,
    files: DeviceFiles,
    power: Option<WattsView>,
    power_cap: Option<WattsView>,
    replies: Seq<Reply>,
)
    requires
        device.driver != "amdgpu"@,
        is_exchange(started(device, files, power, power_cap), replies),
        after_replies(started(device, files, power, power_cap), replies).request == Request::Done,
        !is_refused(replies),
    ensures
        ({
            let before = started(device, files, power, power_cap).metrics;
            let m = after_replies(started(device, files, power, power_cap), replies).metrics;
            &&& replies.len() == 6
            &&& match replies[1] {
                Reply::Number(n) => m.memory_total == Some(n),
                _ => m.memory_total is None,
            }
            &&& match replies[2] {
                Reply::Number(n) => m.memory_used == Some(n),
                _ => m.memory_used is None,
            }
            &&& match replies[3] {
                Reply::Number(n) => m.graphics_mhz == Some(n as u32),
                _ => is_in_megahertz(
                    first_number(files.monitors@, "freq1_input"@),
                    m.graphics_mhz,
                ),
            }
            &&& match replies[4] {
                Reply::Number(n) => m.memory_mhz == Some(n as u32),
                _ => is_in_megahertz(first_number(files.monitors@, "freq2_input"@), m.memory_mhz),
            }
            &&& match replies[5] {
                Reply::Number(n) => m.utilization == Some(n as u32),
                _ => m.utilization is None,
            }
            &&& m == (MetricsView {
                memory_total: m.memory_total,
                memory_used: m.memory_used,
                graphics_mhz: m.graphics_mhz,
                memory_mhz: m.memory_mhz,
                utilization: m.utilization,
                issue: m.issue,
                ..before
            })
        }),
{
    lemma_radeon_steps(started(device, files, power, power_cap), replies);
    files_show_their_readings(device, files, power, power_cap);
}

/// What each request asks the driver: the number of the kernel request, what is asked, what is
/// asked more closely, what stands where the answer goes, and how long the answer is.
pub proof fn each_request_asks_its_question(sensor: u32, clock: u32)
    requires
        1 <= sensor <= 3,
    ensures
        question_of(true, Request::Sensor(sensor), clock) matches Some(q) && q.number == 0x4020_6445
            && q.query == 0x1d && q.data == seq![sensor, 0, 0, 0] && q.start == 0 && q.size == 4,
        question_of(true, Request::Family, clock) matches Some(q) && q.number == 0x4020_6445
            && q.query == 0x16 && q.data == seq![0u32, 0, 0, 0] && q.start == 0 && q.size == 20,
        question_of(true, Request::Busy, clock) matches Some(q) && q.number == 0x4020_6445 && q.query
            == 0x15 && q.data == seq![0x2004u32, 1, 0xffff_ffff, 0] && q.start == 0x8010 && q.size
            == 4,
        question_of(false, Request::MemorySize, clock) matches Some(q) && q.number == 0xc018_645c
            && q.size == 24,
        question_of(false, Request::MemoryUsage, clock) matches Some(q) && q.number == 0xc010_6467
            && q.query == 0x1e && q.start == 0 && q.size == 8,
        question_of(false, Request::GraphicsClock, clock) matches Some(q) && q.number == 0xc010_6467
            && q.query == 0x22 && q.start == 0 && q.size == 4,
        question_of(false, Request::MemoryClock, clock) matches Some(q) && q.number == 0xc010_6467
            && q.query == 0x23 && q.start == clock && q.size == 4,
        question_of(false, Request::Busy, clock) matches Some(q) && q.number == 0xc010_6467
            && q.query == 0x24 && q.start == 0x8010 && q.size == 4,
{
}

/// The busy statuses are those with the highest bit set.
pub proof fn busy_statuses_have_the_top_bit(statuses: Seq<Option<u32>>)
    ensures
        busy_count(statuses) == statuses.filter(
            |s: Option<u32>| s matches Some(status) && status >= 0x8000_0000,
        ).len(),
    decreases statuses.len(),
{
    let top = |s: Option<u32>| s matches Some(status) && status >= 0x8000_0000;
    reveal(Seq::filter);
    if statuses.len() > 0 {
        busy_statuses_have_the_top_bit(statuses.drop_last());
        if let Some(status) = statuses.last() {
            busy_is_the_top_bit(status);
        }
    }
}

/// The percentage is the nearest to the share of the busy statuses, of five readable ones or more.
pub proof fn busy_percentage_is_nearest(statuses: Seq<Option<u32>>)
    ensures
        match busy_percentage(statuses) {
            Some(percent) => statuses.len() >= 5 && (forall|i: int|
                0 <= i < statuses.len() ==> (#[trigger] statuses[i]) is Some) && -statuses.len() < 2
                * (percent * statuses.len() - 100 * busy_count(statuses)) <= statuses.len(),
            None => statuses.len() < 5 || exists|i: int|
                0 <= i < statuses.len() && (#[trigger] statuses[i]) is None,
        },
{
    if busy_percentage(statuses) is Some {
        let n = statuses.len() as int;
        let a = 100 * busy_count(statuses) + n / 2;
        let p = a / n;
        assert(p * n <= a < p * n + n) by (nonlinear_arith)
            requires
                p == a / n,
                n > 0,
        ;
    }
}

/// A connector of the card with this end of its name, and this text in its `enabled` file.
pub open spec fn says(connector: Connector, card: Seq<char>, rest: Seq<char>, text: Seq<char>) -> bool {
    connector.name@ == card + seq!['-'] + rest && optional(connector.enabled) == Some(text)
}

/// A display is driven if a connector of the card says that it is enabled.
pub proof fn an_enabled_connector_drives_a_display(
    connectors: Seq<Connector>,
    card: Seq<char>,
    i: int,
    rest: Seq<char>,
    text: Seq<char>,
)
    requires
        0 <= i < connectors.len(),
        says(connectors[i], card, rest, text),
        trimmed(text) == "enabled"@,
    ensures
        any_lit(connectors, card) == Some(true),
{
    reveal_strlit("-");
    assert(connectors[i].name@.take((card + "-"@).len() as int) =~= card + "-"@);
    assert(is_lit(connectors[i], card));
}

/// No display is driven if a connector of the card says something, and none that it is enabled.
/// Nothing is known if no connector says anything.
pub proof fn no_enabled_connector_drives_no_display(connectors: Seq<Connector>, card: Seq<char>)
    requires
        forall|i: int, rest: Seq<char>, text: Seq<char>|
            0 <= i < connectors.len() && #[trigger] says(connectors[i], card, rest, text)
                ==> trimmed(text) != "enabled"@,
    ensures
        any_lit(connectors, card) != Some(true),
        any_lit(connectors, card) is Some <==> exists|i: int, rest: Seq<char>, text: Seq<char>|
            0 <= i < connectors.len() && #[trigger] says(connectors[i], card, rest, text),
{
    reveal_strlit("-");
    let head = card + "-"@;
    assert(head =~= card + seq!['-']);
    assert forall|i: int| 0 <= i < connectors.len() && belongs_to(#[trigger] connectors[i], card)
        implies exists|rest: Seq<char>, text: Seq<char>| #[trigger]
        says(connectors[i], card, rest, text) && (connectors[i].enabled->0)@ == text by {
        let name = connectors[i].name@;
        let rest = name.skip(head.len() as int);
        assert(name =~= name.take(head.len() as int) + rest);
        assert(says(connectors[i], card, rest, (connectors[i].enabled->0)@));
    }
    assert forall|i: int, rest: Seq<char>, text: Seq<char>|
        0 <= i < connectors.len() && #[trigger] says(connectors[i], card, rest, text) implies
        belongs_to(connectors[i], card) by {
        assert(connectors[i].name@.take(head.len() as int) =~= head);
    }
}

/// What is said of a collection is what it holds, field by field.
pub proof fn collections_are_seen_by_their_fields(c: Collector)
    ensures
        c@.amdgpu == c.amdgpu,
        c@.node == c.node@,
        c@.metrics == c.metrics@,
        c@.clock == c.clock,
        c@.request == c.request,
{
}

/// The complaints name the node, the reason and what to do, or what cannot be known.
pub proof fn issues_are_told_in_full(c: CollectorView, reason: String)
    ensures
        c.request == Request::Open ==> after_reply(c, Reply::Refused(reason)).metrics.issue == Some(
            "cannot open "@ + c.node + ": "@ + reason@
                + "; check render/video device permissions"@,
        ),
        c.request == Request::Busy && !c.amdgpu ==> after_reply(c, Reply::Nothing).metrics.issue
            == Some("GPU utilization is unavailable through the radeon DRM query interface"@),
        c.request == Request::Busy && c.amdgpu ==> after_reply(c, Reply::Nothing).metrics.issue
            == c.metrics.issue,
        c.request == Request::Busy ==> after_reply(c, Reply::Nothing).metrics.utilization is None,
{
}

/// The status register is sampled for a fifth of a second, or until it cannot be read.
pub proof fn sampling_takes_a_fifth_of_a_second(elapsed: u64, statuses: Seq<Option<u32>>, status: u32)
    ensures
        goes_on(elapsed, Seq::empty()) <==> elapsed < 200,
        goes_on(elapsed, statuses.push(Some(status))) <==> elapsed < 200,
        !goes_on(elapsed, statuses.push(None)),
{
}

/// Six files of each monitor are read, and seven of a device with the `amdgpu` driver; of any other
/// driver none.
pub proof fn few_files_are_read()
    ensures
        sensor_names().len() == 6,
        attribute_names(true).len() == 7,
        attribute_names(false).len() == 0,
{
}

/// What is said of a question is what it holds, field by field.
pub proof fn questions_are_seen_by_their_fields(q: Question)
    ensures
        optional_question(None) is None,
        optional_question(Some(q)) matches Some(view) && view.number == q.number && view.query
            == q.query && view.data == q.data@ && view.start == q.start && view.size == q.size,
{
}

/// No driver is asked what only the other understands, nor for a sensor that is not known; opening
/// the node and being done ask nothing.
pub proof fn questions_are_for_their_driver(amdgpu: bool, sensor: u32, clock: u32)
    ensures
        question_of(false, Request::Sensor(sensor), clock) is None,
        sensor < 1 || sensor > 3 ==> question_of(true, Request::Sensor(sensor), clock) is None,
        question_of(false, Request::Family, clock) is None,
        question_of(true, Request::MemorySize, clock) is None,
        question_of(true, Request::MemoryUsage, clock) is None,
        question_of(true, Request::GraphicsClock, clock) is None,
        question_of(true, Request::MemoryClock, clock) is None,
        question_of(amdgpu, Request::Open, clock) is None,
        question_of(amdgpu, Request::Done, clock) is None,
{
}

} // verus!
