//! Reports: what is printed of devices, their readings and their users, line by line.
use crate::csv::{csv_escape, csv_field, csv_row_fields, csv_values, row_reads_back};
use crate::device::{Device, DeviceView, Metrics, MetricsView, WattsView};
use crate::layout::{
    bus_display, bus_display_of, cells, cells_of, fitting_text_is_shown, frame, frame_of,
    frame_width, frames_hold_their_text, gpu_name, gpu_name_of, memory_cell, memory_cell_of,
    name_columns_line_up, reading_columns_line_up, right_cell, right_cell_of, shorten, shortened,
    shortened_fits, stands_at, temp_power_clocks, temp_power_clocks_of, title, title_of, title_room,
    title_width,
};
use crate::number::{
    all_digits, decimal, decimal_of, decimal_reads_back, decimal_width, hex, hex_digits,
    hex_is_in_its_case, hex_of, hex_reads_back, is_capital_hex, is_decimal, magnitude, number,
    numbers_are_written_in_decimal, numbers_of, parse_number, signed_decimal, signed_decimal_of,
    without_sign,
};
use crate::options::{field_names, fields, Options, OptionsView};
use crate::order::views;
use crate::process::{Process, ProcessView};
use crate::text::{
    at_left, at_right, capitals, digit, find, from_chars, in_capitals, is_control, is_digit, join,
    joined, joined_pair, left, lemma_position, lemma_position_is, position, repeat, replace,
    replaced, right, run_of, same, texts, to_chars, upper,
};
use vstd::prelude::*;
use vstd::utf8::encode_utf8;

verus! {

// ---------------------------------------------------------------------------
// Values
// ---------------------------------------------------------------------------
/// `bytes` in whole mebibytes, rounded to the nearest. Numbers at the very top of the range are
/// taken for the greatest.
pub open spec fn mebibytes(bytes: u64) -> nat {
    (if bytes + 524_288 > u64::MAX {
        u64::MAX as int / 1_048_576
    } else {
        (bytes + 524_288) / 1_048_576
    }) as nat
}

pub fn mib(bytes: u64) -> (r: u64)
    ensures
        r == mebibytes(bytes),
{
    bytes.saturating_add(524_288) / 1_048_576
}

/// A bus id in its long form: the domain in eight hexadecimal digits, everything in capitals. What
/// has no domain that can be read stays as it is.
pub open spec fn long_bus_id(id: Seq<char>) -> Seq<char> {
    let k = position(id, ':');
    if k < id.len() {
        match number(id.take(k), 16, u32::MAX as nat) {
            Some(domain) => hex_of(domain, 8, true) + ":"@ + in_capitals(id.skip(k + 1)),
            None => id,
        }
    } else {
        id
    }
}

pub fn bus_id(id: &str) -> (r: String)
    ensures
        r@ == long_bus_id(id@),
{
    let all: Vec<char> = to_chars(id);
    let k: usize = find(&all, ':');
    let n: usize = all.len();
    if k < n {
        let domain: String = from_chars(&all, 0, k);
        let rest: String = from_chars(&all, k + 1, n);
        assert(domain@ =~= id@.take(k as int));
        assert(rest@ =~= id@.skip(k + 1));
        if let Some(domain) = parse_number(domain.as_str(), 16, u32::MAX as u64) {
            let mut r: String = hex(domain as u32, 8, true);
            r.append(":");
            r.append(capitals(rest.as_str()).as_str());
            return r;
        }
    }
    id.to_owned()
}

/// A number with its unit behind it, if units are wanted.
pub open spec fn with_unit(number: Seq<char>, unit: Seq<char>, nounits: bool) -> Seq<char> {
    if nounits {
        number
    } else {
        number + " "@ + unit
    }
}

fn add_unit(number: String, unit: &str, nounits: bool) -> (r: String)
    ensures
        r@ == with_unit(number@, unit@, nounits),
{
    if nounits {
        number
    } else {
        let mut r: String = number;
        r.append(" ");
        r.append(unit);
        r
    }
}

/// An amount of memory in mebibytes; `N/A` if it is not known.
pub open spec fn memory_of(bytes: Option<u64>, nounits: bool) -> Seq<char> {
    match bytes {
        Some(bytes) => with_unit(decimal_of(mebibytes(bytes)), "MiB"@, nounits),
        None => "N/A"@,
    }
}

fn memory(bytes: Option<u64>, nounits: bool) -> (r: String)
    ensures
        r@ == memory_of(bytes, nounits),
{
    match bytes {
        Some(bytes) => add_unit(decimal(mib(bytes)), "MiB", nounits),
        None => "N/A".to_owned(),
    }
}

/// The part of `total` that is not `used`, if both are known.
pub open spec fn memory_left(total: Option<u64>, used: Option<u64>) -> Option<u64> {
    match (total, used) {
        (Some(total), Some(used)) => Some(
            if total > used {
                (total - used) as u64
            } else {
                0
            },
        ),
        _ => None,
    }
}

fn subtract_used(total: Option<u64>, used: Option<u64>) -> (r: Option<u64>)
    ensures
        r == memory_left(total, used),
{
    match (total, used) {
        (Some(total), Some(used)) => Some(total.saturating_sub(used)),
        _ => None,
    }
}

/// A count with its unit; `N/A` if it is not known.
pub open spec fn count_of(n: Option<u32>, unit: Seq<char>, nounits: bool) -> Seq<char> {
    match n {
        Some(n) => with_unit(decimal_of(n as nat), unit, nounits),
        None => "N/A"@,
    }
}

fn count(n: Option<u32>, unit: &str, nounits: bool) -> (r: String)
    ensures
        r@ == count_of(n, unit@, nounits),
{
    match n {
        Some(n) => add_unit(decimal(n as u64), unit, nounits),
        None => "N/A".to_owned(),
    }
}

/// A power in hundredths of a watt; `N/A` if it is not known.
pub open spec fn power_of(watts: Option<WattsView>, nounits: bool) -> Seq<char> {
    match watts {
        Some(watts) => with_unit(watts.hundredths, "W"@, nounits),
        None => "N/A"@,
    }
}

/// The value of a query field.
pub open spec fn value_of(
    field: Seq<char>,
    gpu: DeviceView,
    m: MetricsView,
    stamp: Seq<char>,
    nounits: bool,
) -> Seq<char> {
    if field == "timestamp"@ {
        stamp
    } else if field == "index"@ {
        decimal_of(gpu.index as nat)
    } else if field == "name"@ {
        gpu.name
    } else if field == "pci.bus_id"@ {
        long_bus_id(gpu.bus_id)
    } else if field == "display_active"@ {
        match m.display_active {
            Some(true) => "Enabled"@,
            Some(false) => "Disabled"@,
            None => "N/A"@,
        }
    } else if field == "memory.total"@ {
        memory_of(m.memory_total, nounits)
    } else if field == "memory.used"@ {
        memory_of(m.memory_used, nounits)
    } else if field == "memory.free"@ {
        memory_of(memory_left(m.memory_total, m.memory_used), nounits)
    } else if field == "memory.visible.total"@ {
        memory_of(m.visible_memory_total, nounits)
    } else if field == "memory.visible.used"@ {
        memory_of(m.visible_memory_used, nounits)
    } else if field == "memory.gtt.total"@ {
        memory_of(m.gtt_total, nounits)
    } else if field == "memory.gtt.used"@ {
        memory_of(m.gtt_used, nounits)
    } else if field == "utilization.gpu"@ {
        count_of(m.utilization, "%"@, nounits)
    } else if field == "temperature.gpu"@ {
        match m.temperature_c {
            Some(t) => with_unit(signed_decimal_of(t as int), "C"@, nounits),
            None => "N/A"@,
        }
    } else if field == "clocks.current.graphics"@ {
        count_of(m.graphics_mhz, "MHz"@, nounits)
    } else if field == "clocks.current.memory"@ {
        count_of(m.memory_mhz, "MHz"@, nounits)
    } else if field == "power.draw"@ {
        power_of(m.power_watts, nounits)
    } else if field == "power.limit"@ {
        power_of(m.power_cap_watts, nounits)
    } else if field == "fan.speed"@ {
        match m.fan_rpm {
            Some(rpm) => with_unit(decimal_of(rpm as nat), "RPM"@, nounits),
            None => "N/A"@,
        }
    } else {
        "N/A"@
    }
}

pub fn value(field: &str, gpu: &Device, m: &Metrics, stamp: &str, nounits: bool) -> (r: String)
    ensures
        r@ == value_of(field@, gpu@, m@, stamp@, nounits),
{
    if same(field, "timestamp") {
        stamp.to_owned()
    } else if same(field, "index") {
        decimal(gpu.index as u64)
    } else if same(field, "name") {
        gpu.name.clone()
    } else if same(field, "pci.bus_id") {
        bus_id(gpu.bus_id.as_str())
    } else if same(field, "display_active") {
        match m.display_active {
            Some(active) => if active {
                "Enabled".to_owned()
            } else {
                "Disabled".to_owned()
            },
            None => "N/A".to_owned(),
        }
    } else if same(field, "memory.total") {
        memory(m.memory_total, nounits)
    } else if same(field, "memory.used") {
        memory(m.memory_used, nounits)
    } else if same(field, "memory.free") {
        memory(subtract_used(m.memory_total, m.memory_used), nounits)
    } else if same(field, "memory.visible.total") {
        memory(m.visible_memory_total, nounits)
    } else if same(field, "memory.visible.used") {
        memory(m.visible_memory_used, nounits)
    } else if same(field, "memory.gtt.total") {
        memory(m.gtt_total, nounits)
    } else if same(field, "memory.gtt.used") {
        memory(m.gtt_used, nounits)
    } else if same(field, "utilization.gpu") {
        count(m.utilization, "%", nounits)
    } else if same(field, "temperature.gpu") {
        match m.temperature_c {
            Some(t) => add_unit(signed_decimal(t), "C", nounits),
            None => "N/A".to_owned(),
        }
    } else if same(field, "clocks.current.graphics") {
        count(m.graphics_mhz, "MHz", nounits)
    } else if same(field, "clocks.current.memory") {
        count(m.memory_mhz, "MHz", nounits)
    } else if same(field, "power.draw") {
        match &m.power_watts {
            Some(watts) => add_unit(watts.hundredths.clone(), "W", nounits),
            None => "N/A".to_owned(),
        }
    } else if same(field, "power.limit") {
        match &m.power_cap_watts {
            Some(watts) => add_unit(watts.hundredths.clone(), "W", nounits),
            None => "N/A".to_owned(),
        }
    } else if same(field, "fan.speed") {
        match m.fan_rpm {
            Some(rpm) => add_unit(decimal(rpm), "RPM", nounits),
            None => "N/A".to_owned(),
        }
    } else {
        "N/A".to_owned()
    }
}

// ---------------------------------------------------------------------------
// Queries
// ---------------------------------------------------------------------------
/// The values of `fields` as CSV fields.
pub open spec fn csv_fields(
    fields: Seq<Seq<char>>,
    gpu: DeviceView,
    m: MetricsView,
    stamp: Seq<char>,
    nounits: bool,
) -> Seq<Seq<char>> {
    Seq::new(fields.len(), |i: int| csv_field(value_of(fields[i], gpu, m, stamp, nounits)))
}

/// The lines that answer a query: the names of the fields, if they are wanted and this is the
/// first answer, and one line for each device.
pub open spec fn query_lines(
    devices: Seq<(DeviceView, MetricsView)>,
    stamp: Seq<char>,
    options: OptionsView,
    first: bool,
) -> Seq<Seq<char>> {
    let header = if first && !options.noheader {
        seq![joined(options.fields, ", "@)]
    } else {
        Seq::empty()
    };
    header + Seq::new(
        devices.len(),
        |i: int|
            joined(
                csv_fields(options.fields, devices[i].0, devices[i].1, stamp, options.nounits),
                ", "@,
            ),
    )
}

fn query_row(fields: &Vec<String>, gpu: &Device, m: &Metrics, stamp: &str, nounits: bool) -> (r:
    String)
    ensures
        r@ == joined(csv_fields(texts(fields@), gpu@, m@, stamp@, nounits), ", "@),
{
    let mut row: Vec<String> = Vec::new();
    for i in 0..fields.len()
        invariant
            texts(row@) =~= csv_fields(texts(fields@), gpu@, m@, stamp@, nounits).take(i as int),
    {
        assert(texts(fields@)[i as int] == fields@[i as int]@);
        let field: String = csv_escape(
            value(fields[i].as_str(), gpu, m, stamp, nounits).as_str(),
        );
        let ghost before = texts(row@);
        row.push(field);
        assert(texts(row@) =~= before.push(field@));
    }
    assert(csv_fields(texts(fields@), gpu@, m@, stamp@, nounits).take(fields@.len() as int)
        =~= csv_fields(texts(fields@), gpu@, m@, stamp@, nounits));
    join(&row, ", ")
}

pub fn query(devices: &[(Device, Metrics)], stamp: &str, options: &Options, first: bool) -> (r: Vec<
    String,
>)
    ensures
        texts(r@) == query_lines(views(devices@), stamp@, options@, first),
{
    let mut r: Vec<String> = Vec::new();
    if first && !options.noheader {
        r.push(join(&options.fields, ", "));
    }
    let ghost header = texts(r@);
    let ghost whole = query_lines(views(devices@), stamp@, options@, first);
    assert(header =~= whole.take(header.len() as int));
    for i in 0..devices.len()
        invariant
            header.len() <= 1,
            whole == query_lines(views(devices@), stamp@, options@, first),
            whole.len() == header.len() + devices@.len(),
            header.len() == if first && !options@.noheader {
                1int
            } else {
                0int
            },
            texts(r@) =~= whole.take(header.len() + i),
    {
        let row: String = query_row(
            &options.fields,
            &devices[i].0,
            &devices[i].1,
            stamp,
            options.nounits,
        );
        assert(views(devices@)[i as int] == devices@[i as int]@);
        assert(row@ == whole[header.len() + i]);
        let ghost before = texts(r@);
        r.push(row);
        assert(texts(r@) =~= before.push(row@));
    }
    assert(whole.take(whole.len() as int) =~= whole);
    r
}

// ---------------------------------------------------------------------------
// Lists
// ---------------------------------------------------------------------------
/// The lines that list the devices.
pub open spec fn list_lines(devices: Seq<DeviceView>) -> Seq<Seq<char>> {
    Seq::new(
        devices.len(),
        |i: int|
            "GPU "@ + decimal_of(devices[i].index as nat) + ": "@ + devices[i].name + " (PCI "@
                + long_bus_id(devices[i].bus_id) + ")"@,
    )
}

pub fn list(devices: &Vec<Device>) -> (r: Vec<String>)
    ensures
        texts(r@) == list_lines(views(devices@)),
{
    let mut r: Vec<String> = Vec::new();
    let ghost whole = list_lines(views(devices@));
    for i in 0..devices.len()
        invariant
            whole == list_lines(views(devices@)),
            texts(r@) =~= whole.take(i as int),
    {
        let gpu: &Device = &devices[i];
        let mut line: String = "GPU ".to_owned();
        line.append(decimal(gpu.index as u64).as_str());
        line.append(": ");
        line.append(gpu.name.as_str());
        line.append(" (PCI ");
        line.append(bus_id(gpu.bus_id.as_str()).as_str());
        line.append(")");
        assert(views(devices@)[i as int] == gpu@);
        assert(line@ == whole[i as int]);
        let ghost before = texts(r@);
        r.push(line);
        assert(texts(r@) =~= before.push(line@));
    }
    assert(whole.take(devices@.len() as int) =~= whole);
    r
}

/// The lines that list the fields of a query.
pub open spec fn field_lines() -> Seq<Seq<char>> {
    seq!["Supported --query-gpu fields (unsupported hardware values are N/A):"@] + Seq::new(
        field_names().len(),
        |i: int| "  "@ + field_names()[i],
    )
}

pub fn list_fields() -> (r: Vec<String>)
    ensures
        texts(r@) == field_lines(),
{
    let all: Vec<String> = fields();
    let mut r: Vec<String> = Vec::new();
    r.push(
        "Supported --query-gpu fields (unsupported hardware values are N/A):".to_owned(),
    );
    assert(texts(r@) =~= field_lines().take(1));
    for i in 0..all.len()
        invariant
            texts(all@) == field_names(),
            field_lines().len() == 1 + all@.len(),
            texts(r@) =~= field_lines().take(1 + i),
    {
        assert(texts(all@)[i as int] == all@[i as int]@);
        let line: String = joined_pair("  ", all[i].as_str());
        assert(line@ == field_lines()[1 + i]);
        let ghost before = texts(r@);
        r.push(line);
        assert(texts(r@) =~= before.push(line@));
    }
    assert(field_lines().take(1 + all@.len() as int) =~= field_lines());
    r
}

// ---------------------------------------------------------------------------
// Details
// ---------------------------------------------------------------------------
/// The line of a field in the details.
pub open spec fn detail_line(
    field: Seq<char>,
    gpu: DeviceView,
    m: MetricsView,
    stamp: Seq<char>,
) -> Seq<char> {
    "    "@ + field + ": "@ + value_of(field, gpu, m, stamp, false)
}

/// The details of one device: its index and name, every field, what went wrong, and an empty line.
pub open spec fn detail_block(gpu: DeviceView, m: MetricsView, stamp: Seq<char>) -> Seq<
    Seq<char>,
> {
    let issue = match m.issue {
        Some(issue) => seq!["    telemetry_error: "@ + issue],
        None => Seq::empty(),
    };
    seq!["GPU "@ + decimal_of(gpu.index as nat) + ": "@ + gpu.name] + Seq::new(
        field_names().len(),
        |i: int| detail_line(field_names()[i], gpu, m, stamp),
    ) + issue + seq![Seq::empty()]
}

/// The details of the devices, one behind the other.
pub open spec fn detail_lines(devices: Seq<(DeviceView, MetricsView)>, stamp: Seq<char>) -> Seq<
    Seq<char>,
>
    decreases devices.len(),
{
    if devices.len() == 0 {
        Seq::empty()
    } else {
        detail_lines(devices.drop_last(), stamp) + detail_block(
            devices.last().0,
            devices.last().1,
            stamp,
        )
    }
}

fn detail_device(gpu: &Device, m: &Metrics, stamp: &str) -> (r: Vec<String>)
    ensures
        texts(r@) == detail_block(gpu@, m@, stamp@),
{
    let all: Vec<String> = fields();
    let ghost whole = detail_block(gpu@, m@, stamp@);
    let mut r: Vec<String> = Vec::new();
    let mut head: String = "GPU ".to_owned();
    head.append(decimal(gpu.index as u64).as_str());
    head.append(": ");
    head.append(gpu.name.as_str());
    r.push(head);
    assert(texts(r@) =~= whole.take(1));
    for i in 0..all.len()
        invariant
            texts(all@) == field_names(),
            whole == detail_block(gpu@, m@, stamp@),
            whole.len() >= 1 + all@.len(),
            texts(r@) =~= whole.take(1 + i),
    {
        assert(texts(all@)[i as int] == all@[i as int]@);
        let mut line: String = "    ".to_owned();
        line.append(all[i].as_str());
        line.append(": ");
        line.append(value(all[i].as_str(), gpu, m, stamp, false).as_str());
        assert(line@ == whole[1 + i]);
        let ghost before = texts(r@);
        r.push(line);
        assert(texts(r@) =~= before.push(line@));
    }
    if let Some(issue) = &m.issue {
        let ghost before = texts(r@);
        r.push(joined_pair("    telemetry_error: ", issue.as_str()));
        assert(texts(r@) =~= before.push("    telemetry_error: "@ + issue@));
    }
    let ghost before = texts(r@);
    r.push(String::new());
    assert(texts(r@) =~= before.push(Seq::empty()));
    assert(texts(r@) =~= whole);
    r
}

pub fn detail(devices: &[(Device, Metrics)], stamp: &str) -> (r: Vec<String>)
    ensures
        texts(r@) == detail_lines(views(devices@), stamp@),
{
    let mut r: Vec<String> = Vec::new();
    let ghost all = views(devices@);
    assert(texts(r@) =~= detail_lines(all.take(0), stamp@));
    for i in 0..devices.len()
        invariant
            all == views(devices@),
            texts(r@) == detail_lines(all.take(i as int), stamp@),
    {
        let mut block: Vec<String> = detail_device(&devices[i].0, &devices[i].1, stamp);
        assert(all[i as int] == devices@[i as int]@);
        assert(all.take(i + 1).drop_last() =~= all.take(i as int));
        let ghost before = texts(r@);
        let ghost added = texts(block@);
        r.append(&mut block);
        assert(texts(r@) =~= before + added);
    }
    assert(all.take(devices@.len() as int) =~= all);
    r
}

// ---------------------------------------------------------------------------
// The table
// ---------------------------------------------------------------------------
/// The line above and below a part of the table.
pub open spec fn border_line() -> Seq<char> {
    "+"@ + run_of('-', 89) + "+"@
}

/// The line between two devices, or above the first of them with `=` for `-`.
pub open spec fn split_line() -> Seq<char> {
    "+"@ + run_of('-', 41) + "+"@ + run_of('-', 24) + "+"@ + run_of('-', 22) + "+"@
}

fn border() -> (r: String)
    ensures
        r@ == border_line(),
{
    let mut r: String = "+".to_owned();
    r.append(repeat('-', 89).as_str());
    r.append("+");
    r
}

fn divider() -> (r: String)
    ensures
        r@ == split_line(),
{
    let mut r: String = "+".to_owned();
    r.append(repeat('-', 41).as_str());
    r.append("+");
    r.append(repeat('-', 24).as_str());
    r.append("+");
    r.append(repeat('-', 22).as_str());
    r.append("+");
    r
}

/// A number with its unit directly behind it; `N/A` if it is not known.
pub open spec fn short_count(n: Option<u32>, unit: Seq<char>) -> Seq<char> {
    match n {
        Some(n) => decimal_of(n as nat) + unit,
        None => "N/A"@,
    }
}

fn short(n: Option<u32>, unit: &str) -> (r: String)
    ensures
        r@ == short_count(n, unit@),
{
    match n {
        Some(n) => joined_pair(decimal(n as u64).as_str(), unit),
        None => "N/A".to_owned(),
    }
}

pub open spec fn display_text(active: Option<bool>) -> Seq<char> {
    match active {
        Some(true) => "On"@,
        Some(false) => "Off"@,
        None => "N/A"@,
    }
}

pub open spec fn temperature_text(t: Option<i64>) -> Seq<char> {
    match t {
        Some(t) => signed_decimal_of(t as int) + "C"@,
        None => "N/A"@,
    }
}

/// The memory in use and in all; `N/A` unless both are known.
pub open spec fn usage_text(used: Option<u64>, total: Option<u64>) -> Seq<char> {
    match (used, total) {
        (Some(used), Some(total)) => decimal_of(mebibytes(used)) + "MiB / "@ + decimal_of(
            mebibytes(total),
        ) + "MiB"@,
        _ => "N/A"@,
    }
}

/// The power drawn and its limit; `N/A` unless both are known.
pub open spec fn power_text(draw: Option<WattsView>, cap: Option<WattsView>) -> Seq<char> {
    match (draw, cap) {
        (Some(draw), Some(cap)) => draw.whole + "W / "@ + cap.whole + "W"@,
        _ => "N/A"@,
    }
}

pub open spec fn clocks_text(graphics: Option<u32>, memory: Option<u32>) -> Seq<char> {
    short_count(graphics, "MHz"@) + "/"@ + short_count(memory, "MHz"@)
}

/// The first row of a device: what it is.
pub open spec fn name_row(gpu: DeviceView, m: MetricsView) -> Seq<char> {
    cells_of(
        gpu_name_of(decimal_of(gpu.index as nat), gpu.name),
        bus_display_of(long_bus_id(gpu.bus_id), display_text(m.display_active)),
        right_cell_of("N/A"@),
    )
}

/// The second row of a device: how it is.
pub open spec fn reading_row(m: MetricsView) -> Seq<char> {
    cells_of(
        temp_power_clocks_of(
            temperature_text(m.temperature_c),
            power_text(m.power_watts, m.power_cap_watts),
            clocks_text(m.graphics_mhz, m.memory_mhz),
        ),
        memory_cell_of(usage_text(m.memory_used, m.memory_total)),
        right_cell_of(short_count(m.utilization, "%"@)),
    )
}

/// The lines of one device.
pub open spec fn device_block(gpu: DeviceView, m: MetricsView) -> Seq<Seq<char>> {
    let issue = match m.issue {
        Some(issue) => seq![frame_of("Telemetry: "@ + issue)],
        None => Seq::empty(),
    };
    seq![name_row(gpu, m), reading_row(m)] + issue + seq![split_line()]
}

/// The lines of the devices, one behind the other.
pub open spec fn device_blocks(devices: Seq<(DeviceView, MetricsView)>) -> Seq<Seq<char>>
    decreases devices.len(),
{
    if devices.len() == 0 {
        Seq::empty()
    } else {
        device_blocks(devices.drop_last()) + device_block(devices.last().0, devices.last().1)
    }
}

/// A row of the process list.
pub open spec fn process_row_of(
    gpu: Seq<char>,
    pid: Seq<char>,
    name: Seq<char>,
    memory: Seq<char>,
) -> Seq<char> {
    "| "@ + at_left(gpu, 3) + "  "@ + at_left(pid, 7) + "  "@ + at_left(name, 60) + " "@ + at_right(
        memory,
        12,
    ) + " |"@
}

/// The row of a process.
pub open spec fn process_row(p: ProcessView) -> Seq<char> {
    process_row_of(
        decimal_of(p.gpu as nat),
        decimal_of(p.pid as nat),
        shortened(p.name, 60),
        match p.memory {
            Some(bytes) => decimal_of(mebibytes(bytes)) + "MiB"@,
            None => "N/A"@,
        },
    )
}

/// The rows of the processes, or a row that says that there are none.
pub open spec fn process_rows(processes: Seq<ProcessView>) -> Seq<Seq<char>> {
    if processes.len() == 0 {
        seq![frame_of("No visible GPU processes"@)]
    } else {
        Seq::new(processes.len(), |i: int| process_row(processes[i]))
    }
}

/// The lines above the devices. `driver` is that of the first device.
pub open spec fn table_head(driver: Seq<char>, stamp: Seq<char>, version: Seq<char>) -> Seq<
    Seq<char>,
> {
    seq![
        stamp,
        border_line(),
        title_of("RADEON-SMI "@ + version, "Driver: "@ + driver),
        split_line(),
        cells_of(
            gpu_name_of("GPU"@, "Name"@),
            bus_display_of("Bus-Id"@, "Disp.A"@),
            right_cell_of("Volatile Uncorr. ECC"@),
        ),
        cells_of(
            temp_power_clocks_of("Temp"@, "Power"@, "Clocks GFX/MEM"@),
            memory_cell_of("Memory-Usage"@),
            right_cell_of("GPU-Util"@),
        ),
        replaced(split_line(), '-', "="@),
    ]
}

/// The lines between the devices and the processes.
pub open spec fn process_head() -> Seq<Seq<char>> {
    seq![
        Seq::empty(),
        border_line(),
        frame_of("Processes: GPU device users"@),
        border_line(),
        process_row_of("GPU"@, "PID"@, "Process name"@, "GPU Memory"@),
        border_line(),
    ]
}

/// The lines below the processes.
pub open spec fn table_foot() -> Seq<Seq<char>> {
    seq![
        frame_of(
            "Visible processes only (/proc permissions); VRAM uses DRM fdinfo when available"@,
        ),
        border_line(),
    ]
}

/// The lines of the table.
pub open spec fn table_lines(
    devices: Seq<(DeviceView, MetricsView)>,
    processes: Seq<ProcessView>,
    stamp: Seq<char>,
    version: Seq<char>,
) -> Seq<Seq<char>> {
    table_head(devices[0].0.driver, stamp, version) + device_blocks(devices) + process_head()
        + process_rows(processes) + table_foot()
}

fn show_device(gpu: &Device, m: &Metrics) -> (r: Vec<String>)
    ensures
        texts(r@) == device_block(gpu@, m@),
{
    let display: &str = match m.display_active {
        Some(active) => if active {
            "On"
        } else {
            "Off"
        },
        None => "N/A",
    };
    let temp: String = match m.temperature_c {
        Some(t) => joined_pair(signed_decimal(t).as_str(), "C"),
        None => "N/A".to_owned(),
    };
    let memory: String = match (m.memory_used, m.memory_total) {
        (Some(used), Some(total)) => {
            let mut text: String = decimal(mib(used));
            text.append("MiB / ");
            text.append(decimal(mib(total)).as_str());
            text.append("MiB");
            text
        },
        _ => "N/A".to_owned(),
    };
    let util: String = short(m.utilization, "%");
    let power: String = match (&m.power_watts, &m.power_cap_watts) {
        (Some(draw), Some(cap)) => {
            let mut text: String = draw.whole.clone();
            text.append("W / ");
            text.append(cap.whole.as_str());
            text.append("W");
            text
        },
        _ => "N/A".to_owned(),
    };
    let mut clocks: String = short(m.graphics_mhz, "MHz");
    clocks.append("/");
    clocks.append(short(m.memory_mhz, "MHz").as_str());
    let mut r: Vec<String> = Vec::new();
    r.push(
        cells(
            gpu_name(decimal(gpu.index as u64).as_str(), gpu.name.as_str()).as_str(),
            bus_display(bus_id(gpu.bus_id.as_str()).as_str(), display).as_str(),
            right_cell("N/A").as_str(),
        ),
    );
    r.push(
        cells(
            temp_power_clocks(temp.as_str(), power.as_str(), clocks.as_str()).as_str(),
            memory_cell(memory.as_str()).as_str(),
            right_cell(util.as_str()).as_str(),
        ),
    );
    if let Some(issue) = &m.issue {
        r.push(frame(joined_pair("Telemetry: ", issue.as_str()).as_str()));
    }
    r.push(divider());
    assert(texts(r@) =~= device_block(gpu@, m@));
    r
}

fn write_process_row(gpu: &str, pid: &str, name: &str, memory: &str) -> (r: String)
    ensures
        r@ == process_row_of(gpu@, pid@, name@, memory@),
{
    let mut r: String = "| ".to_owned();
    r.append(left(gpu, 3).as_str());
    r.append("  ");
    r.append(left(pid, 7).as_str());
    r.append("  ");
    r.append(left(name, 60).as_str());
    r.append(" ");
    r.append(right(memory, 12).as_str());
    r.append(" |");
    r
}

fn show_process(p: &Process) -> (r: String)
    ensures
        r@ == process_row(p@),
{
    let memory: String = match p.memory {
        Some(bytes) => joined_pair(decimal(mib(bytes)).as_str(), "MiB"),
        None => "N/A".to_owned(),
    };
    write_process_row(
        decimal(p.gpu as u64).as_str(),
        decimal(p.pid as u64).as_str(),
        shorten(p.name.as_str(), 60).as_str(),
        memory.as_str(),
    )
}

fn show_processes(processes: &[Process]) -> (r: Vec<String>)
    ensures
        texts(r@) == process_rows(views(processes@)),
{
    let mut r: Vec<String> = Vec::new();
    let ghost all = views(processes@);
    if processes.len() == 0 {
        r.push(frame("No visible GPU processes"));
        assert(texts(r@) =~= process_rows(all));
        return r;
    }
    for i in 0..processes.len()
        invariant
            all == views(processes@),
            processes@.len() > 0,
            texts(r@) =~= process_rows(all).take(i as int),
    {
        let row: String = show_process(&processes[i]);
        assert(all[i as int] == processes@[i as int]@);
        assert(row@ == process_rows(all)[i as int]);
        let ghost before = texts(r@);
        r.push(row);
        assert(texts(r@) =~= before.push(row@));
    }
    assert(process_rows(all).take(processes@.len() as int) =~= process_rows(all));
    r
}

fn show_devices(devices: &[(Device, Metrics)]) -> (r: Vec<String>)
    ensures
        texts(r@) == device_blocks(views(devices@)),
{
    let mut r: Vec<String> = Vec::new();
    let ghost all = views(devices@);
    assert(texts(r@) =~= device_blocks(all.take(0)));
    for i in 0..devices.len()
        invariant
            all == views(devices@),
            texts(r@) == device_blocks(all.take(i as int)),
    {
        let mut block: Vec<String> = show_device(&devices[i].0, &devices[i].1);
        assert(all[i as int] == devices@[i as int]@);
        assert(all.take(i + 1).drop_last() =~= all.take(i as int));
        let ghost before = texts(r@);
        let ghost added = texts(block@);
        r.append(&mut block);
        assert(texts(r@) =~= before + added);
    }
    assert(all.take(devices@.len() as int) =~= all);
    r
}

fn show_head(driver: &str, stamp: &str, version: &str) -> (r: Vec<String>)
    requires
        title_room("RADEON-SMI "@ + version@) >= 0,
    ensures
        texts(r@) == table_head(driver@, stamp@, version@),
{
    let mut r: Vec<String> = Vec::new();
    r.push(stamp.to_owned());
    r.push(border());
    r.push(
        title(
            joined_pair("RADEON-SMI ", version).as_str(),
            joined_pair("Driver: ", driver).as_str(),
        ),
    );
    r.push(divider());
    r.push(
        cells(
            gpu_name("GPU", "Name").as_str(),
            bus_display("Bus-Id", "Disp.A").as_str(),
            right_cell("Volatile Uncorr. ECC").as_str(),
        ),
    );
    r.push(
        cells(
            temp_power_clocks("Temp", "Power", "Clocks GFX/MEM").as_str(),
            memory_cell("Memory-Usage").as_str(),
            right_cell("GPU-Util").as_str(),
        ),
    );
    r.push(replace(divider().as_str(), '-', "="));
    assert(texts(r@) =~= table_head(driver@, stamp@, version@));
    r
}

fn show_process_head() -> (r: Vec<String>)
    ensures
        texts(r@) == process_head(),
{
    let mut r: Vec<String> = Vec::new();
    r.push(String::new());
    r.push(border());
    r.push(frame("Processes: GPU device users"));
    r.push(border());
    r.push(write_process_row("GPU", "PID", "Process name", "GPU Memory"));
    r.push(border());
    assert(texts(r@) =~= process_head());
    r
}

/// Writes the table. The program's version stands in its title, which has to have room for it.
pub fn table(
    devices: &[(Device, Metrics)],
    processes: &[Process],
    stamp: &str,
    version: &str,
) -> (r: Vec<String>)
    requires
        devices@.len() > 0,
        title_room("RADEON-SMI "@ + version@) >= 0,
    ensures
        texts(r@) == table_lines(views(devices@), views(processes@), stamp@, version@),
{
    let mut r: Vec<String> = show_head(devices[0].0.driver.as_str(), stamp, version);
    let mut blocks: Vec<String> = show_devices(devices);
    let mut head: Vec<String> = show_process_head();
    let mut rows: Vec<String> = show_processes(processes);
    let ghost parts = (texts(r@), texts(blocks@), texts(head@), texts(rows@));
    r.append(&mut blocks);
    r.append(&mut head);
    r.append(&mut rows);
    r.push(
        frame(
            "Visible processes only (/proc permissions); VRAM uses DRM fdinfo when available",
        ),
    );
    r.push(border());
    assert(texts(r@) =~= parts.0 + parts.1 + parts.2 + parts.3 + table_foot());
    r
}

// ---------------------------------------------------------------------------
// Laws
// ---------------------------------------------------------------------------
/// An amount of memory is off by half a mebibyte at most.
pub proof fn mebibytes_are_nearest(bytes: u64)
    requires
        bytes + 524_288 <= u64::MAX,
    ensures
        -524_288 < mebibytes(bytes) * 1_048_576 - bytes <= 524_288,
{
}

/// More memory is never shown as less.
pub proof fn mebibytes_grow(a: u64, b: u64)
    requires
        a <= b,
    ensures
        mebibytes(a) <= mebibytes(b),
{
}

/// Used and free memory make up the whole, if no more is used than there is.
pub proof fn used_and_free_make_total(total: u64, used: u64)
    requires
        used <= total,
    ensures
        memory_left(Some(total), Some(used)) matches Some(left) && left + used == total,
{
}

/// The long form of a bus id is final: its long form is itself.
pub proof fn long_bus_id_is_final(id: Seq<char>)
    ensures
        long_bus_id(long_bus_id(id)) == long_bus_id(id),
{
    let k = position(id, ':');
    lemma_position(id, ':');
    if k < id.len() {
        if let Some(domain) = number(id.take(k), 16, u32::MAX as nat) {
            reveal_strlit(":");
            let digits = hex_of(domain, 8, true);
            let rest = in_capitals(id.skip(k + 1));
            let long = digits + ":"@ + rest;
            hex_digits(domain, 8, true);
            assert(domain < numbers_of(8, 16)) by {
                reveal_with_fuel(numbers_of, 9);
            }
            hex_reads_back(domain, 8, true, u32::MAX as nat);
            assert forall|i: int| 0 <= i < 8 implies long[i] != ':' by {
                assert(long[i] == digits[i]);
                assert(digits[i] != ':');
            }
            lemma_position_is(long, ':', 8);
            assert(long.take(8) =~= digits);
            assert(long.skip(9) =~= rest);
            assert(in_capitals(rest) =~= rest);
        }
    }
}

proof fn lemma_upper(c: char, d: char)
    requires
        upper(c) == upper(d),
    ensures
        digit(c) == digit(d),
        c == ':' <==> d == ':',
        c == '+' <==> d == '+',
{
}

/// Texts that are the same in capitals hold the same letters, in either case.
proof fn lemma_same_letters(a: Seq<char>, b: Seq<char>)
    requires
        in_capitals(a) == in_capitals(b),
    ensures
        a.len() == b.len(),
        forall|i: int|
            0 <= i < a.len() ==> upper(#[trigger] a[i]) == upper(#[trigger] b[i]) && digit(a[i])
                == digit(b[i]) && (a[i] == ':' <==> b[i] == ':') && (a[i] == '+' <==> b[i] == '+'),
{
    assert(a.len() == in_capitals(a).len() && in_capitals(b).len() == b.len());
    assert forall|i: int| 0 <= i < a.len() implies upper(#[trigger] a[i]) == upper(#[trigger] b[i])
        && digit(a[i]) == digit(b[i]) && (a[i] == ':' <==> b[i] == ':') && (a[i] == '+' <==> b[i]
        == '+') by {
        assert(in_capitals(a)[i] == upper(a[i]));
        assert(in_capitals(b)[i] == upper(b[i]));
        lemma_upper(a[i], b[i]);
    }
}

proof fn lemma_same_position(a: Seq<char>, b: Seq<char>)
    requires
        in_capitals(a) == in_capitals(b),
    ensures
        a.len() == b.len(),
        position(a, ':') == position(b, ':'),
{
    lemma_same_letters(a, b);
    lemma_position(a, ':');
    let k = position(a, ':');
    assert forall|i: int| 0 <= i < k implies b[i] != ':' by {
        assert(a[i] != ':');
    }
    if k < a.len() {
        assert(a[k] == ':');
        assert(b[k] == ':');
    }
    lemma_position_is(b, ':', k);
}

proof fn lemma_same_magnitude(a: Seq<char>, b: Seq<char>)
    requires
        a.len() == b.len(),
        forall|i: int| 0 <= i < a.len() ==> digit(#[trigger] a[i]) == digit(#[trigger] b[i]),
    ensures
        magnitude(a, 16) == magnitude(b, 16),
        all_digits(a, 16) == all_digits(b, 16),
    decreases a.len(),
{
    if a.len() > 0 {
        let x = a.drop_last();
        let y = b.drop_last();
        assert forall|i: int| 0 <= i < x.len() implies digit(#[trigger] x[i]) == digit(
            #[trigger] y[i],
        ) by {
            assert(digit(a[i]) == digit(b[i]));
        }
        lemma_same_magnitude(x, y);
        assert(digit(a[a.len() - 1]) == digit(b[a.len() - 1]));
    }
    assert(all_digits(a, 16) ==> all_digits(b, 16)) by {
        if all_digits(a, 16) {
            assert forall|i: int| 0 <= i < b.len() implies digit(#[trigger] b[i]) < 16 by {
                assert(digit(a[i]) < 16);
            }
        }
    }
    assert(all_digits(b, 16) ==> all_digits(a, 16)) by {
        if all_digits(b, 16) {
            assert forall|i: int| 0 <= i < a.len() implies digit(#[trigger] a[i]) < 16 by {
                assert(digit(b[i]) < 16);
            }
        }
    }
}

proof fn lemma_same_number(a: Seq<char>, b: Seq<char>, max: nat)
    requires
        in_capitals(a) == in_capitals(b),
    ensures
        number(a, 16, max) == number(b, 16, max),
{
    lemma_same_letters(a, b);
    let x = without_sign(a);
    let y = without_sign(b);
    if a.len() > 0 {
        assert(a[0] == '+' <==> b[0] == '+');
    }
    assert(x.len() == y.len());
    assert forall|i: int| 0 <= i < x.len() implies digit(#[trigger] x[i]) == digit(
        #[trigger] y[i],
    ) by {
        let k = i + (a.len() - x.len());
        assert(x[i] == a[k] && y[i] == b[k]);
        assert(digit(a[k]) == digit(b[k]));
    }
    lemma_same_magnitude(x, y);
}

/// A bus id has a domain that can be read.
pub open spec fn has_domain(id: Seq<char>) -> bool {
    position(id, ':') < id.len() && number(
        id.take(position(id, ':')),
        16,
        u32::MAX as nat,
    ) is Some
}

/// The case of letters does not matter to the long form of a bus id whose domain can be read.
pub proof fn case_does_not_matter(a: Seq<char>, b: Seq<char>)
    requires
        in_capitals(a) == in_capitals(b),
        has_domain(a),
    ensures
        has_domain(b),
        long_bus_id(a) == long_bus_id(b),
{
    lemma_same_position(a, b);
    lemma_position(a, ':');
    let k = position(a, ':');
    assert(in_capitals(a.take(k)) =~= in_capitals(a).take(k));
    assert(in_capitals(b.take(k)) =~= in_capitals(b).take(k));
    lemma_same_number(a.take(k), b.take(k), u32::MAX as nat);
    assert(in_capitals(a.skip(k + 1)) =~= in_capitals(a).skip(k + 1));
    assert(in_capitals(b.skip(k + 1)) =~= in_capitals(b).skip(k + 1));
}

/// The unit of a field, if it is measured in one.
pub open spec fn unit_of(field: Seq<char>) -> Option<Seq<char>> {
    if field == "timestamp"@ || field == "index"@ || field == "name"@ || field == "pci.bus_id"@
        || field == "display_active"@ {
        None
    } else if field == "memory.total"@ || field == "memory.used"@ || field == "memory.free"@ || field
        == "memory.visible.total"@ || field == "memory.visible.used"@ || field
        == "memory.gtt.total"@ || field == "memory.gtt.used"@ {
        Some("MiB"@)
    } else if field == "utilization.gpu"@ {
        Some("%"@)
    } else if field == "temperature.gpu"@ {
        Some("C"@)
    } else if field == "clocks.current.graphics"@ || field == "clocks.current.memory"@ {
        Some("MHz"@)
    } else if field == "power.draw"@ || field == "power.limit"@ {
        Some("W"@)
    } else if field == "fan.speed"@ {
        Some("RPM"@)
    } else {
        None
    }
}

/// What the field shows is known: its own reading, both readings that free memory is made of, or
/// what identifies the device and the time. Of every other field nothing is ever known.
pub open spec fn is_known(field: Seq<char>, m: MetricsView) -> bool {
    if field == "timestamp"@ || field == "index"@ || field == "name"@ || field == "pci.bus_id"@ {
        true
    } else if field == "display_active"@ {
        m.display_active is Some
    } else if field == "memory.total"@ {
        m.memory_total is Some
    } else if field == "memory.used"@ {
        m.memory_used is Some
    } else if field == "memory.free"@ {
        m.memory_total is Some && m.memory_used is Some
    } else if field == "memory.visible.total"@ {
        m.visible_memory_total is Some
    } else if field == "memory.visible.used"@ {
        m.visible_memory_used is Some
    } else if field == "memory.gtt.total"@ {
        m.gtt_total is Some
    } else if field == "memory.gtt.used"@ {
        m.gtt_used is Some
    } else if field == "utilization.gpu"@ {
        m.utilization is Some
    } else if field == "temperature.gpu"@ {
        m.temperature_c is Some
    } else if field == "clocks.current.graphics"@ {
        m.graphics_mhz is Some
    } else if field == "clocks.current.memory"@ {
        m.memory_mhz is Some
    } else if field == "power.draw"@ {
        m.power_watts is Some
    } else if field == "power.limit"@ {
        m.power_cap_watts is Some
    } else if field == "fan.speed"@ {
        m.fan_rpm is Some
    } else {
        false
    }
}

/// No two fields have the same name.
proof fn lemma_fields_differ()
    ensures
        "timestamp"@.len() == 9,
        "index"@.len() == 5,
        "name"@.len() == 4,
        "pci.bus_id"@.len() == 10,
        "display_active"@.len() == 14,
        "memory.total"@.len() == 12,
        "memory.used"@.len() == 11,
        "memory.free"@.len() == 11,
        "memory.visible.total"@.len() == 20,
        "memory.visible.used"@.len() == 19,
        "memory.gtt.total"@.len() == 16,
        "memory.gtt.used"@.len() == 15,
        "utilization.gpu"@.len() == 15,
        "temperature.gpu"@.len() == 15,
        "clocks.current.graphics"@.len() == 23,
        "clocks.current.memory"@.len() == 21,
        "power.draw"@.len() == 10,
        "power.limit"@.len() == 11,
        "fan.speed"@.len() == 9,
        "ecc.errors.uncorrected.volatile.total"@.len() == 37,
        "timestamp"@[0] != "fan.speed"@[0],
        "pci.bus_id"@[1] != "power.draw"@[1],
        "memory.used"@[7] != "memory.free"@[7],
        "memory.used"@[0] != "power.limit"@[0],
        "memory.free"@[0] != "power.limit"@[0],
        "memory.gtt.used"@[0] != "utilization.gpu"@[0],
        "memory.gtt.used"@[0] != "temperature.gpu"@[0],
        "utilization.gpu"@[0] != "temperature.gpu"@[0],
{
    reveal_strlit("timestamp");
    reveal_strlit("index");
    reveal_strlit("name");
    reveal_strlit("pci.bus_id");
    reveal_strlit("display_active");
    reveal_strlit("memory.total");
    reveal_strlit("memory.used");
    reveal_strlit("memory.free");
    reveal_strlit("memory.visible.total");
    reveal_strlit("memory.visible.used");
    reveal_strlit("memory.gtt.total");
    reveal_strlit("memory.gtt.used");
    reveal_strlit("utilization.gpu");
    reveal_strlit("temperature.gpu");
    reveal_strlit("clocks.current.graphics");
    reveal_strlit("clocks.current.memory");
    reveal_strlit("power.draw");
    reveal_strlit("power.limit");
    reveal_strlit("fan.speed");
    reveal_strlit("ecc.errors.uncorrected.volatile.total");
}

/// Which reading each field shows.
pub proof fn every_field_shows_its_reading(m: MetricsView)
    ensures
        is_known("display_active"@, m) <==> m.display_active is Some,
        is_known("memory.total"@, m) <==> m.memory_total is Some,
        is_known("memory.used"@, m) <==> m.memory_used is Some,
        is_known("memory.free"@, m) <==> (m.memory_total is Some && m.memory_used is Some),
        is_known("memory.visible.total"@, m) <==> m.visible_memory_total is Some,
        is_known("memory.visible.used"@, m) <==> m.visible_memory_used is Some,
        is_known("memory.gtt.total"@, m) <==> m.gtt_total is Some,
        is_known("memory.gtt.used"@, m) <==> m.gtt_used is Some,
        is_known("utilization.gpu"@, m) <==> m.utilization is Some,
        is_known("temperature.gpu"@, m) <==> m.temperature_c is Some,
        is_known("clocks.current.graphics"@, m) <==> m.graphics_mhz is Some,
        is_known("clocks.current.memory"@, m) <==> m.memory_mhz is Some,
        is_known("power.draw"@, m) <==> m.power_watts is Some,
        is_known("power.limit"@, m) <==> m.power_cap_watts is Some,
        is_known("fan.speed"@, m) <==> m.fan_rpm is Some,
        is_known("ecc.errors.uncorrected.volatile.total"@, m) <==> false,
{
    lemma_fields_differ();
}

/// The value with units is the value without, a space and the unit of the field, if it has one and
/// its reading is known; else the two are the same.
pub proof fn units_stand_behind(
    field: Seq<char>,
    gpu: DeviceView,
    m: MetricsView,
    stamp: Seq<char>,
)
    ensures
        value_of(field, gpu, m, stamp, false) == match unit_of(field) {
            Some(unit) => if is_known(field, m) {
                value_of(field, gpu, m, stamp, true) + " "@ + unit
            } else {
                value_of(field, gpu, m, stamp, true)
            },
            None => value_of(field, gpu, m, stamp, true),
        },
{
}

/// A field whose reading is not known is shown as `N/A`, whatever else is known.
pub proof fn unknown_readings_are_not_available(
    field: Seq<char>,
    gpu: DeviceView,
    m: MetricsView,
    stamp: Seq<char>,
    nounits: bool,
)
    requires
        !is_known(field, m),
    ensures
        value_of(field, gpu, m, stamp, nounits) == "N/A"@,
{
}

/// The text begins with something else than `N/A` does.
spec fn begins_otherwise(s: Seq<char>) -> bool {
    s.len() > 0 && s[0] != 'N'
}

proof fn lemma_decimal_begins(n: nat)
    ensures
        begins_otherwise(decimal_of(n)),
{
    decimal_reads_back(n, n);
    let digits = decimal_of(n);
    assert(digits.len() > 0);
    assert(is_digit(digits[0]));
}

/// A reading that is known is not shown as `N/A`. This leaves out the texts that are shown as they
/// come: the time, the name, the bus id and the power.
pub proof fn known_readings_are_shown(
    field: Seq<char>,
    gpu: DeviceView,
    m: MetricsView,
    stamp: Seq<char>,
    nounits: bool,
)
    requires
        is_known(field, m),
        field != "timestamp"@,
        field != "name"@,
        field != "pci.bus_id"@,
        field != "power.draw"@,
        field != "power.limit"@,
    ensures
        value_of(field, gpu, m, stamp, nounits) != "N/A"@,
{
    reveal_strlit("N/A");
    reveal_strlit("Enabled");
    reveal_strlit("Disabled");
    assert forall|n: nat| begins_otherwise(#[trigger] decimal_of(n)) by {
        lemma_decimal_begins(n);
    }
    let v = value_of(field, gpu, m, stamp, nounits);
    assert(begins_otherwise(v)) by {
        if field == "temperature.gpu"@ {
            if let Some(t) = m.temperature_c {
                assert(begins_otherwise(signed_decimal_of(t as int)));
            }
        }
    }
}

/// An answer to a query has one line for each device, and one more for the names of the fields in
/// the first answer, unless they are not wanted.
pub proof fn query_line_count(
    devices: Seq<(DeviceView, MetricsView)>,
    stamp: Seq<char>,
    options: OptionsView,
    first: bool,
)
    ensures
        query_lines(devices, stamp, options, first).len() == devices.len() + if first
            && !options.noheader {
            1int
        } else {
            0int
        },
{
}

/// Reading the last lines of an answer as CSV gives the values of the fields of each device.
pub proof fn query_reads_back(
    devices: Seq<(DeviceView, MetricsView)>,
    stamp: Seq<char>,
    options: OptionsView,
    first: bool,
    i: int,
)
    requires
        0 <= i < devices.len(),
        options.fields.len() > 0,
    ensures
        ({
            let lines = query_lines(devices, stamp, options, first);
            csv_values(lines[lines.len() - devices.len() + i]) == Seq::new(
                options.fields.len(),
                |k: int|
                    value_of(
                        options.fields[k],
                        devices[i].0,
                        devices[i].1,
                        stamp,
                        options.nounits,
                    ),
            )
        }),
{
    let (gpu, m) = devices[i];
    let values = Seq::new(
        options.fields.len(),
        |k: int| value_of(options.fields[k], gpu, m, stamp, options.nounits),
    );
    row_reads_back(values);
    assert(csv_row_fields(values) =~= csv_fields(options.fields, gpu, m, stamp, options.nounits));
}

proof fn lemma_replaced(s: Seq<char>, from: char, to: Seq<char>)
    requires
        to.len() == 1,
    ensures
        replaced(s, from, to).len() == s.len(),
        forall|i: int|
            0 <= i < s.len() ==> #[trigger] replaced(s, from, to)[i] == if s[i] == from {
                to[0]
            } else {
                s[i]
            },
    decreases s.len(),
{
    if s.len() > 0 {
        let front = replaced(s.drop_last(), from, to);
        lemma_replaced(s.drop_last(), from, to);
        assert forall|i: int| 0 <= i < s.len() implies #[trigger] replaced(s, from, to)[i] == if s[i]
            == from {
            to[0]
        } else {
            s[i]
        } by {
            if i < s.len() - 1 {
                assert(replaced(s, from, to)[i] == front[i]);
                assert(s.drop_last()[i] == s[i]);
            }
        }
    }
}

/// A full line of the table: 91 characters wide, with the same character at both ends: `|` if it
/// holds text, else `+`.
pub open spec fn is_row(line: Seq<char>) -> bool {
    line.len() == 91 && line[0] == line[90] && (line[0] == '|' || line[0] == '+')
}

proof fn lemma_frame(text: Seq<char>)
    ensures
        is_row(frame_of(text)),
{
    frame_width(text);
    reveal_strlit("| ");
    reveal_strlit(" |");
}

proof fn lemma_cells(left: Seq<char>, middle: Seq<char>, right: Seq<char>)
    requires
        cells_of(left, middle, right).len() == 91,
    ensures
        is_row(cells_of(left, middle, right)),
{
    reveal_strlit("|");
}

proof fn lemma_title(left: Seq<char>, right: Seq<char>)
    requires
        title_of(left, right).len() == 91,
    ensures
        is_row(title_of(left, right)),
{
    reveal_strlit("| ");
    reveal_strlit(" |");
}

/// The numbers of a process fit in their columns.
pub open spec fn fits(p: ProcessView) -> bool {
    &&& 0 <= p.gpu < 1_000
    &&& 0 <= p.pid < 10_000_000
    &&& p.memory matches Some(bytes) ==> mebibytes(bytes) < 1_000_000_000
}

/// The row of a process is a full line if its numbers fit.
pub proof fn process_row_is_full(p: ProcessView)
    requires
        fits(p),
    ensures
        is_row(process_row(p)),
{
    reveal_strlit("| ");
    reveal_strlit("  ");
    reveal_strlit(" ");
    reveal_strlit(" |");
    reveal_strlit("MiB");
    reveal_strlit("N/A");
    assert(numbers_of(3, 10) == 1_000 && numbers_of(7, 10) == 10_000_000 && numbers_of(9, 10)
        == 1_000_000_000) by {
        reveal_with_fuel(numbers_of, 10);
    }
    decimal_width(p.gpu as nat, 3);
    decimal_width(p.pid as nat, 7);
    shortened_fits(p.name, 60);
    if let Some(bytes) = p.memory {
        decimal_width(mebibytes(bytes), 9);
    }
}

/// Every line of `lines` is a full one.
pub open spec fn is_even(lines: Seq<Seq<char>>) -> bool {
    forall|i: int| 0 <= i < lines.len() ==> is_row(#[trigger] lines[i])
}

proof fn lemma_even_pair(a: Seq<Seq<char>>, b: Seq<Seq<char>>)
    requires
        is_even(a),
        is_even(b),
    ensures
        is_even(a + b),
{
    assert forall|i: int| 0 <= i < (a + b).len() implies is_row(#[trigger] (a + b)[i]) by {
        if i < a.len() {
            assert((a + b)[i] == a[i]);
        } else {
            assert((a + b)[i] == b[i - a.len()]);
        }
    }
}

proof fn lemma_lines()
    ensures
        is_row(border_line()),
        is_row(split_line()),
        is_row(replaced(split_line(), '-', "="@)),
{
    reveal_strlit("+");
    reveal_strlit("=");
    lemma_replaced(split_line(), '-', "="@);
}

proof fn lemma_even_block(gpu: DeviceView, m: MetricsView)
    ensures
        is_even(device_block(gpu, m)),
        device_block(gpu, m).len() == if m.issue is Some {
            4int
        } else {
            3int
        },
{
    let block = device_block(gpu, m);
    assert(is_row(split_line())) by {
        lemma_lines();
    }
    assert(is_row(name_row(gpu, m))) by {
        name_columns_line_up(
            decimal_of(gpu.index as nat),
            gpu.name,
            long_bus_id(gpu.bus_id),
            display_text(m.display_active),
            "N/A"@,
        );
        lemma_cells(
            gpu_name_of(decimal_of(gpu.index as nat), gpu.name),
            bus_display_of(long_bus_id(gpu.bus_id), display_text(m.display_active)),
            right_cell_of("N/A"@),
        );
    }
    assert(is_row(reading_row(m))) by {
        let temp = temperature_text(m.temperature_c);
        let power = power_text(m.power_watts, m.power_cap_watts);
        let clocks = clocks_text(m.graphics_mhz, m.memory_mhz);
        let memory = usage_text(m.memory_used, m.memory_total);
        let util = short_count(m.utilization, "%"@);
        reading_columns_line_up(temp, power, clocks, memory, util);
        lemma_cells(
            temp_power_clocks_of(temp, power, clocks),
            memory_cell_of(memory),
            right_cell_of(util),
        );
    }
    if let Some(issue) = m.issue {
        lemma_frame("Telemetry: "@ + issue);
        assert(block =~= seq![
            name_row(gpu, m),
            reading_row(m),
            frame_of("Telemetry: "@ + issue),
            split_line(),
        ]);
    } else {
        assert(block =~= seq![name_row(gpu, m), reading_row(m), split_line()]);
    }
}

/// How many lines the devices take: three each, and one more for each with an issue.
pub open spec fn block_lines(devices: Seq<(DeviceView, MetricsView)>) -> nat
    decreases devices.len(),
{
    if devices.len() == 0 {
        0
    } else {
        block_lines(devices.drop_last()) + if devices.last().1.issue is Some {
            4nat
        } else {
            3nat
        }
    }
}

proof fn lemma_even_blocks(devices: Seq<(DeviceView, MetricsView)>)
    ensures
        is_even(device_blocks(devices)),
        device_blocks(devices).len() == block_lines(devices),
    decreases devices.len(),
{
    if devices.len() > 0 {
        let (gpu, m) = devices.last();
        lemma_even_blocks(devices.drop_last());
        lemma_even_block(gpu, m);
        lemma_even_pair(device_blocks(devices.drop_last()), device_block(gpu, m));
    }
}

proof fn lemma_even_processes(processes: Seq<ProcessView>)
    requires
        forall|i: int| 0 <= i < processes.len() ==> fits(#[trigger] processes[i]),
    ensures
        is_even(process_rows(processes)),
{
    lemma_frame("No visible GPU processes"@);
    assert forall|i: int| 0 <= i < processes.len() implies is_row(
        process_row(#[trigger] processes[i]),
    ) by {
        process_row_is_full(processes[i]);
    }
}

proof fn lemma_even_head(driver: Seq<char>, stamp: Seq<char>, version: Seq<char>)
    requires
        encode_utf8(shortened("RADEON-SMI "@ + version, 43)).len() == shortened(
            "RADEON-SMI "@ + version,
            43,
        ).len(),
    ensures
        is_even(table_head(driver, stamp, version).skip(1)),
{
    let lines = table_head(driver, stamp, version);
    lemma_lines();
    assert(is_row(lines[2])) by {
        title_width("RADEON-SMI "@ + version, "Driver: "@ + driver);
        lemma_title("RADEON-SMI "@ + version, "Driver: "@ + driver);
    }
    assert(is_row(lines[4])) by {
        name_columns_line_up("GPU"@, "Name"@, "Bus-Id"@, "Disp.A"@, "Volatile Uncorr. ECC"@);
        lemma_cells(
            gpu_name_of("GPU"@, "Name"@),
            bus_display_of("Bus-Id"@, "Disp.A"@),
            right_cell_of("Volatile Uncorr. ECC"@),
        );
    }
    assert(is_row(lines[5])) by {
        reading_columns_line_up("Temp"@, "Power"@, "Clocks GFX/MEM"@, "Memory-Usage"@, "GPU-Util"@);
        lemma_cells(
            temp_power_clocks_of("Temp"@, "Power"@, "Clocks GFX/MEM"@),
            memory_cell_of("Memory-Usage"@),
            right_cell_of("GPU-Util"@),
        );
    }
    assert forall|i: int| 1 <= i < lines.len() implies is_row(#[trigger] lines[i]) by {
        assert(lines.len() == 7);
    }
}

proof fn lemma_even_middle()
    ensures
        is_even(process_head().skip(1)),
        is_even(table_foot()),
{
    lemma_lines();
    lemma_frame("Processes: GPU device users"@);
    lemma_frame("Visible processes only (/proc permissions); VRAM uses DRM fdinfo when available"@);
    assert(is_row(process_row_of("GPU"@, "PID"@, "Process name"@, "GPU Memory"@))) by {
        reveal_strlit("| ");
        reveal_strlit("  ");
        reveal_strlit(" ");
        reveal_strlit(" |");
        reveal_strlit("GPU");
        reveal_strlit("PID");
        reveal_strlit("Process name");
        reveal_strlit("GPU Memory");
    }
}

/// How many lines the table has: those round the devices and the processes, those of the devices,
/// and one for each process, or one that says that there is none.
pub proof fn table_line_count(
    devices: Seq<(DeviceView, MetricsView)>,
    processes: Seq<ProcessView>,
    stamp: Seq<char>,
    version: Seq<char>,
)
    ensures
        table_lines(devices, processes, stamp, version).len() == 15 + block_lines(devices) + if
            processes.len() == 0 {
            1int
        } else {
            processes.len() as int
        },
{
    lemma_even_blocks(devices);
}

/// Every line of the table behind the time is 91 characters wide and has the same character at
/// both ends, but for the empty one between its parts, whatever the devices and their readings are.
/// The version has to be one byte for each character, and the numbers of the processes have to fit
/// in their columns.
pub proof fn table_is_even(
    devices: Seq<(DeviceView, MetricsView)>,
    processes: Seq<ProcessView>,
    stamp: Seq<char>,
    version: Seq<char>,
)
    requires
        encode_utf8(shortened("RADEON-SMI "@ + version, 43)).len() == shortened(
            "RADEON-SMI "@ + version,
            43,
        ).len(),
        forall|i: int| 0 <= i < processes.len() ==> fits(#[trigger] processes[i]),
    ensures
        ({
            let lines = table_lines(devices, processes, stamp, version);
            let blank = 7 + block_lines(devices);
            &&& lines[0] == stamp
            &&& lines[blank as int].len() == 0
            &&& forall|i: int| 1 <= i < lines.len() && i != blank ==> is_row(#[trigger] lines[i])
        }),
{
    let head = table_head(devices[0].0.driver, stamp, version);
    let blocks = device_blocks(devices);
    let rows = process_rows(processes);
    let lines = table_lines(devices, processes, stamp, version);
    lemma_even_head(devices[0].0.driver, stamp, version);
    lemma_even_blocks(devices);
    lemma_even_processes(processes);
    lemma_even_middle();
    let blank = 7 + block_lines(devices);
    assert(head.len() == 7);
    assert(lines[blank as int] == process_head()[0]);
    assert forall|i: int| 1 <= i < lines.len() && i != blank implies is_row(
        #[trigger] lines[i],
    ) by {
        if i < 7 {
            assert(lines[i] == head.skip(1)[i - 1]);
        } else if i < blank {
            assert(lines[i] == blocks[i - 7]);
        } else if i < blank + 6 {
            assert(lines[i] == process_head().skip(1)[i - blank - 1]);
        } else if i < blank + 6 + rows.len() {
            assert(lines[i] == rows[i - blank - 6]);
        } else {
            assert(lines[i] == table_foot()[i - blank - 6 - rows.len()]);
        }
    }
}

/// A field without units is the decimal text of its reading, and with units has the unit behind it;
/// both are `N/A` if the reading is not known.
pub open spec fn field_shows(
    field: Seq<char>,
    gpu: DeviceView,
    m: MetricsView,
    stamp: Seq<char>,
    reading: Option<int>,
    unit: Seq<char>,
) -> bool {
    let plain = value_of(field, gpu, m, stamp, true);
    let full = value_of(field, gpu, m, stamp, false);
    match reading {
        Some(n) => is_decimal(plain, n) && full == plain + unit,
        None => plain == "N/A"@ && full == "N/A"@,
    }
}

/// `n` is the number of mebibytes that comes nearest to `bytes`. For amounts that are less than
/// half a mebibyte below the greatest it is the number of whole mebibytes below that.
pub open spec fn is_nearest(n: int, bytes: int) -> bool {
    if bytes + 524_288 <= u64::MAX {
        -524_288 < n * 1_048_576 - bytes <= 524_288
    } else {
        n == 17_592_186_044_415
    }
}

/// A field without units is the decimal text of the number of mebibytes nearest to the amount of
/// memory, and with units has ` MiB` behind it; both are `N/A` if the amount is not known.
pub open spec fn field_shows_memory(
    field: Seq<char>,
    gpu: DeviceView,
    m: MetricsView,
    stamp: Seq<char>,
    bytes: Option<int>,
) -> bool {
    let plain = value_of(field, gpu, m, stamp, true);
    let full = value_of(field, gpu, m, stamp, false);
    match bytes {
        Some(bytes) => full == plain + " MiB"@ && exists|n: int| #[trigger]
            is_decimal(plain, n) && is_nearest(n, bytes),
        None => plain == "N/A"@ && full == "N/A"@,
    }
}

/// The reading as a whole number.
pub open spec fn whole_u32(n: Option<u32>) -> Option<int> {
    match n {
        Some(n) => Some(n as int),
        None => None,
    }
}

/// The reading as a whole number.
pub open spec fn whole_i64(n: Option<i64>) -> Option<int> {
    match n {
        Some(n) => Some(n as int),
        None => None,
    }
}

/// The reading as a whole number.
pub open spec fn whole_u64(n: Option<u64>) -> Option<int> {
    match n {
        Some(n) => Some(n as int),
        None => None,
    }
}

proof fn lemma_unit(n: Seq<char>, unit: Seq<char>, spaced: Seq<char>)
    requires
        spaced == " "@ + unit,
    ensures
        with_unit(n, unit, true) == n,
        with_unit(n, unit, false) == n + spaced,
{
    assert(n + " "@ + unit =~= n + spaced);
}

proof fn lemma_memory_field(
    field: Seq<char>,
    gpu: DeviceView,
    m: MetricsView,
    stamp: Seq<char>,
    bytes: Option<u64>,
)
    requires
        value_of(field, gpu, m, stamp, true) == memory_of(bytes, true),
        value_of(field, gpu, m, stamp, false) == memory_of(bytes, false),
    ensures
        field_shows_memory(field, gpu, m, stamp, whole_u64(bytes)),
{
    if let Some(b) = bytes {
        reveal_strlit(" ");
        reveal_strlit("MiB");
        reveal_strlit(" MiB");
        assert(" MiB"@ =~= " "@ + "MiB"@);
        let n = mebibytes(b) as int;
        lemma_unit(decimal_of(mebibytes(b)), "MiB"@, " MiB"@);
        numbers_are_written_in_decimal(n);
        assert(is_nearest(n, b as int));
        assert(is_decimal(value_of(field, gpu, m, stamp, true), n));
    }
}

/// Which reading each field of memory shows: the whole and the used memory, what is left of it, the
/// part of it that the processor sees, and the memory of the machine that the device may use.
pub proof fn memory_fields_show_their_memory(gpu: DeviceView, m: MetricsView, stamp: Seq<char>)
    ensures
        field_shows_memory("memory.total"@, gpu, m, stamp, whole_u64(m.memory_total)),
        field_shows_memory("memory.used"@, gpu, m, stamp, whole_u64(m.memory_used)),
        field_shows_memory(
            "memory.free"@,
            gpu,
            m,
            stamp,
            match (m.memory_total, m.memory_used) {
                (Some(total), Some(used)) => Some(
                    if used <= total {
                        total - used
                    } else {
                        0
                    },
                ),
                _ => None,
            },
        ),
        field_shows_memory("memory.visible.total"@, gpu, m, stamp, whole_u64(m.visible_memory_total)),
        field_shows_memory("memory.visible.used"@, gpu, m, stamp, whole_u64(m.visible_memory_used)),
        field_shows_memory("memory.gtt.total"@, gpu, m, stamp, whole_u64(m.gtt_total)),
        field_shows_memory("memory.gtt.used"@, gpu, m, stamp, whole_u64(m.gtt_used)),
{
    lemma_fields_differ();
    let left = memory_left(m.memory_total, m.memory_used);
    lemma_memory_field("memory.total"@, gpu, m, stamp, m.memory_total);
    lemma_memory_field("memory.used"@, gpu, m, stamp, m.memory_used);
    lemma_memory_field("memory.free"@, gpu, m, stamp, left);
    lemma_memory_field("memory.visible.total"@, gpu, m, stamp, m.visible_memory_total);
    lemma_memory_field("memory.visible.used"@, gpu, m, stamp, m.visible_memory_used);
    lemma_memory_field("memory.gtt.total"@, gpu, m, stamp, m.gtt_total);
    lemma_memory_field("memory.gtt.used"@, gpu, m, stamp, m.gtt_used);
}

proof fn lemma_count_field(n: Option<u32>, unit: Seq<char>, spaced: Seq<char>)
    requires
        spaced == " "@ + unit,
    ensures
        match n {
            Some(n) => count_of(Some(n), unit, false) == count_of(Some(n), unit, true) + spaced
                && is_decimal(count_of(Some(n), unit, true), n as int),
            None => count_of(n, unit, true) == "N/A"@ && count_of(n, unit, false) == "N/A"@,
        },
{
    if let Some(v) = n {
        lemma_unit(decimal_of(v as nat), unit, spaced);
        numbers_are_written_in_decimal(v as int);
    }
}

proof fn lemma_spaced()
    ensures
        " %"@ == " "@ + "%"@,
        " C"@ == " "@ + "C"@,
        " W"@ == " "@ + "W"@,
        " MHz"@ == " "@ + "MHz"@,
        " RPM"@ == " "@ + "RPM"@,
{
    reveal_strlit(" ");
    reveal_strlit("%");
    reveal_strlit(" %");
    reveal_strlit("C");
    reveal_strlit(" C");
    reveal_strlit("W");
    reveal_strlit(" W");
    reveal_strlit("MHz");
    reveal_strlit(" MHz");
    reveal_strlit("RPM");
    reveal_strlit(" RPM");
    assert(" %"@ =~= " "@ + "%"@);
    assert(" C"@ =~= " "@ + "C"@);
    assert(" W"@ =~= " "@ + "W"@);
    assert(" MHz"@ =~= " "@ + "MHz"@);
    assert(" RPM"@ =~= " "@ + "RPM"@);
}

/// Which reading each field of a number shows, and its unit.
pub proof fn number_fields_show_their_readings(gpu: DeviceView, m: MetricsView, stamp: Seq<char>)
    ensures
        field_shows("utilization.gpu"@, gpu, m, stamp, whole_u32(m.utilization), " %"@),
        field_shows("temperature.gpu"@, gpu, m, stamp, whole_i64(m.temperature_c), " C"@),
        field_shows("clocks.current.graphics"@, gpu, m, stamp, whole_u32(m.graphics_mhz), " MHz"@),
        field_shows("clocks.current.memory"@, gpu, m, stamp, whole_u32(m.memory_mhz), " MHz"@),
        field_shows("fan.speed"@, gpu, m, stamp, whole_u64(m.fan_rpm), " RPM"@),
{
    lemma_fields_differ();
    lemma_spaced();
    lemma_count_field(m.utilization, "%"@, " %"@);
    lemma_count_field(m.graphics_mhz, "MHz"@, " MHz"@);
    lemma_count_field(m.memory_mhz, "MHz"@, " MHz"@);
    if let Some(t) = m.temperature_c {
        lemma_unit(signed_decimal_of(t as int), "C"@, " C"@);
        numbers_are_written_in_decimal(t as int);
    }
    if let Some(rpm) = m.fan_rpm {
        lemma_unit(decimal_of(rpm as nat), "RPM"@, " RPM"@);
        numbers_are_written_in_decimal(rpm as int);
    }
}

/// Which text each of the other fields shows.
pub proof fn text_fields_show_their_texts(
    gpu: DeviceView,
    m: MetricsView,
    stamp: Seq<char>,
    nounits: bool,
)
    requires
        gpu.index >= 0,
    ensures
        value_of("timestamp"@, gpu, m, stamp, nounits) == stamp,
        is_decimal(value_of("index"@, gpu, m, stamp, nounits), gpu.index),
        value_of("name"@, gpu, m, stamp, nounits) == gpu.name,
        value_of("pci.bus_id"@, gpu, m, stamp, nounits) == long_bus_id(gpu.bus_id),
        value_of("display_active"@, gpu, m, stamp, nounits) == match m.display_active {
            Some(active) => if active {
                "Enabled"@
            } else {
                "Disabled"@
            },
            None => "N/A"@,
        },
        value_of("power.draw"@, gpu, m, stamp, nounits) == match m.power_watts {
            Some(watts) => if nounits {
                watts.hundredths
            } else {
                watts.hundredths + " W"@
            },
            None => "N/A"@,
        },
        value_of("power.limit"@, gpu, m, stamp, nounits) == match m.power_cap_watts {
            Some(watts) => if nounits {
                watts.hundredths
            } else {
                watts.hundredths + " W"@
            },
            None => "N/A"@,
        },
        value_of("ecc.errors.uncorrected.volatile.total"@, gpu, m, stamp, nounits) == "N/A"@,
{
    lemma_fields_differ();
    lemma_spaced();
    numbers_are_written_in_decimal(gpu.index);
    if let Some(watts) = m.power_watts {
        lemma_unit(watts.hundredths, "W"@, " W"@);
    }
    if let Some(watts) = m.power_cap_watts {
        lemma_unit(watts.hundredths, "W"@, " W"@);
    }
}

/// The long form of a bus id with a domain that can be read: eight hexadecimal digits in capitals
/// that write the domain, the colon, and what stood behind the first colon with its letters of
/// ASCII in capitals.
pub proof fn long_bus_ids_write_their_domain(before: Seq<char>, rest: Seq<char>, domain: nat)
    requires
        forall|i: int| 0 <= i < before.len() ==> #[trigger] before[i] != ':',
        number(before, 16, u32::MAX as nat) == Some(domain),
    ensures
        ({
            let long = long_bus_id(before + seq![':'] + rest);
            &&& long.len() == 9 + rest.len()
            &&& long[8] == ':'
            &&& number(long.take(8), 16, u32::MAX as nat) == Some(domain)
            &&& forall|i: int| 0 <= i < 8 ==> is_capital_hex(#[trigger] long[i])
            &&& forall|i: int|
                9 <= i < long.len() ==> (#[trigger] long[i]) as int == rest[i - 9] as int - if 'a'
                    <= rest[i - 9] <= 'z' {
                    32int
                } else {
                    0int
                }
        }),
{
    reveal_strlit(":");
    let id = before + seq![':'] + rest;
    let k = before.len() as int;
    assert forall|i: int| 0 <= i < k implies id[i] != ':' by {
        assert(id[i] == before[i]);
    }
    assert(id[k] == ':');
    lemma_position_is(id, ':', k);
    assert(id.take(k) =~= before);
    assert(id.skip(k + 1) =~= rest);
    let digits = hex_of(domain, 8, true);
    let long = long_bus_id(id);
    hex_is_in_its_case(domain, 8, true);
    assert(domain < numbers_of(8, 16)) by {
        reveal_with_fuel(numbers_of, 9);
    }
    hex_reads_back(domain, 8, true, u32::MAX as nat);
    assert(long.take(8) =~= digits);
    assert forall|i: int| 0 <= i < 8 implies is_capital_hex(#[trigger] long[i]) by {
        assert(long[i] == digits[i]);
    }
    assert forall|i: int| 9 <= i < long.len() implies (#[trigger] long[i]) as int == rest[i - 9] as int
        - if 'a' <= rest[i - 9] <= 'z' {
        32int
    } else {
        0int
    } by {
        assert(long[i] == in_capitals(rest)[i - 9]);
    }
}

/// A bus id without a colon, or with a domain that cannot be read, stays as it is.
pub proof fn other_bus_ids_stay(before: Seq<char>, rest: Seq<char>)
    requires
        forall|i: int| 0 <= i < before.len() ==> #[trigger] before[i] != ':',
    ensures
        long_bus_id(before) == before,
        number(before, 16, u32::MAX as nat) is None ==> long_bus_id(before + seq![':'] + rest)
            == before + seq![':'] + rest,
{
    let id = before + seq![':'] + rest;
    let k = before.len() as int;
    lemma_position_is(before, ':', k);
    assert forall|i: int| 0 <= i < k implies id[i] != ':' by {
        assert(id[i] == before[i]);
    }
    assert(id[k] == ':');
    lemma_position_is(id, ':', k);
    assert(id.take(k) =~= before);
}

// ---------------------------------------------------------------------------
// Laws on the rows of a device
// ---------------------------------------------------------------------------
/// The column of the display reads `On` exactly if a display is driven, `Off` exactly if none is,
/// and `N/A` exactly if that is not known, with spaces before it.
pub proof fn the_display_column_says_whether_a_display_is_driven(gpu: DeviceView, m: MetricsView)
    ensures
        name_row(gpu, m).subrange(60, 66) == seq![' ', ' ', ' ', ' ', 'O', 'n']
            <==> m.display_active == Some(true),
        name_row(gpu, m).subrange(60, 66) == seq![' ', ' ', ' ', 'O', 'f', 'f']
            <==> m.display_active == Some(false),
        name_row(gpu, m).subrange(60, 66) == seq![' ', ' ', ' ', 'N', '/', 'A']
            <==> m.display_active is None,
        device_block(gpu, m)[0] == name_row(gpu, m),
{
    let on = seq![' ', ' ', ' ', ' ', 'O', 'n'];
    let off = seq![' ', ' ', ' ', 'O', 'f', 'f'];
    let unknown = seq![' ', ' ', ' ', 'N', '/', 'A'];
    assert(on[5] != off[5] && on[5] != unknown[5] && off[5] != unknown[5]);
    lemma_display_column(gpu, m);
}

proof fn lemma_display_column(gpu: DeviceView, m: MetricsView)
    ensures
        name_row(gpu, m).subrange(60, 66) == match m.display_active {
            Some(active) => if active {
                seq![' ', ' ', ' ', ' ', 'O', 'n']
            } else {
                seq![' ', ' ', ' ', 'O', 'f', 'f']
            },
            None => seq![' ', ' ', ' ', 'N', '/', 'A'],
        },
{
    reveal_strlit("|");
    reveal_strlit(" ");
    reveal_strlit("On");
    reveal_strlit("Off");
    reveal_strlit("N/A");
    let gpu_text = decimal_of(gpu.index as nat);
    let bus = long_bus_id(gpu.bus_id);
    let display = display_text(m.display_active);
    shortened_fits(gpu_text, 4);
    shortened_fits(gpu.name, 35);
    shortened_fits(bus, 16);
    assert(shortened(display, 6) == display) by {
        fitting_text_is_shown(display, 6);
    }
    let row = name_row(gpu, m);
    let cell = bus_display_of(bus, display);
    assert(gpu_name_of(gpu_text, gpu.name).len() == 41);
    assert(cell.len() == 24);
    assert(row.subrange(60, 66) =~= cell.subrange(17, 23));
    assert(cell.subrange(17, 23) =~= at_right(display, 6));
}

/// Two rows of one device whose displays are in different states differ, and its other readings do
/// not change the row.
pub proof fn rows_with_other_displays_differ(gpu: DeviceView, a: MetricsView, b: MetricsView)
    ensures
        name_row(gpu, a) == name_row(gpu, b) <==> a.display_active == b.display_active,
{
    the_display_column_says_whether_a_display_is_driven(gpu, a);
    the_display_column_says_whether_a_display_is_driven(gpu, b);
}

/// Which text stands in which column of the row of names.
pub open spec fn names_stand(
    row: Seq<char>,
    index: Seq<char>,
    name: Seq<char>,
    bus: Seq<char>,
    last: Seq<char>,
) -> bool {
    &&& row.len() == 91
    &&& row[0] == '|' && row[42] == '|' && row[67] == '|' && row[90] == '|'
    &&& stands_at(row, shortened(index, 4), 2)
    &&& stands_at(row, shortened(name, 35), 41 - shortened(name, 35).len())
    &&& stands_at(row, shortened(bus, 16), 44)
    &&& stands_at(row, last, 89 - last.len())
}

/// The row of names holds the index, the name and the bus id of the device, each in its column. Of
/// errors in memory nothing is known.
pub proof fn rows_hold_what_the_device_is(gpu: DeviceView, m: MetricsView)
    requires
        gpu.index >= 0,
    ensures
        exists|index: Seq<char>| #[trigger]
            is_decimal(index, gpu.index) && names_stand(
                name_row(gpu, m),
                index,
                gpu.name,
                long_bus_id(gpu.bus_id),
                "N/A"@,
            ),
{
    let index = decimal_of(gpu.index as nat);
    let bus = long_bus_id(gpu.bus_id);
    let display = display_text(m.display_active);
    assert(shortened("N/A"@, 21) == "N/A"@) by {
        reveal_strlit("N/A");
        fitting_text_is_shown("N/A"@, 21);
    }
    assert(names_stand(name_row(gpu, m), index, gpu.name, bus, "N/A"@)) by {
        name_columns_line_up(index, gpu.name, bus, display, "N/A"@);
        lemma_bars(index, gpu.name, bus, display, "N/A"@);
    }
    assert(is_decimal(index, gpu.index)) by {
        numbers_are_written_in_decimal(gpu.index);
    }
}

proof fn lemma_bars(
    gpu: Seq<char>,
    name: Seq<char>,
    bus: Seq<char>,
    display: Seq<char>,
    last: Seq<char>,
)
    ensures
        ({
            let row = cells_of(
                gpu_name_of(gpu, name),
                bus_display_of(bus, display),
                right_cell_of(last),
            );
            row[0] == '|' && row[42] == '|' && row[67] == '|' && row[90] == '|'
        }),
{
    reveal_strlit("|");
    reveal_strlit(" ");
    shortened_fits(gpu, 4);
    shortened_fits(name, 35);
    shortened_fits(bus, 16);
    shortened_fits(display, 6);
    shortened_fits(last, 21);
}

/// A text is the decimal text of a number, and a unit.
pub open spec fn is_number_with(text: Seq<char>, n: int, unit: Seq<char>) -> bool {
    exists|digits: Seq<char>| #[trigger] is_decimal(digits, n) && text == digits + unit
}

/// A text is the decimal text of a number, and a unit, or `N/A` if the number is not known.
pub open spec fn tells(text: Seq<char>, n: Option<int>, unit: Seq<char>) -> bool {
    match n {
        Some(n) => is_number_with(text, n, unit),
        None => text == "N/A"@,
    }
}

/// Which text stands in which column of the row of readings.
pub open spec fn readings_stand(
    row: Seq<char>,
    temperature: Seq<char>,
    power: Seq<char>,
    clocks: Seq<char>,
    memory: Seq<char>,
    load: Seq<char>,
) -> bool {
    &&& row.len() == 91
    &&& stands_at(row, shortened(temperature, 8), 2)
    &&& stands_at(row, shortened(power, 12), 10)
    &&& stands_at(row, shortened(clocks, 19), 41 - shortened(clocks, 19).len())
    &&& stands_at(row, shortened(memory, 23), 66 - shortened(memory, 23).len())
    &&& stands_at(row, shortened(load, 21), 89 - shortened(load, 21).len())
}

/// The memory in use and in all, each as the nearest number of mebibytes; `N/A` unless both are
/// known.
pub open spec fn tells_usage(text: Seq<char>, used: Option<u64>, total: Option<u64>) -> bool {
    match (used, total) {
        (Some(used), Some(total)) => exists|u: Seq<char>, t: Seq<char>|
            #[trigger]
            writes_mebibytes(u, used as int) && #[trigger] writes_mebibytes(t, total as int) && text
                == u + "MiB / "@ + t + "MiB"@,
        _ => text == "N/A"@,
    }
}

/// The decimal text of the number of mebibytes that comes nearest to `bytes`.
pub open spec fn writes_mebibytes(text: Seq<char>, bytes: int) -> bool {
    exists|n: int| #[trigger] is_decimal(text, n) && is_nearest(n, bytes)
}

proof fn lemma_writes_mebibytes(bytes: u64)
    ensures
        writes_mebibytes(decimal_of(mebibytes(bytes)), bytes as int),
{
    let n = mebibytes(bytes) as int;
    numbers_are_written_in_decimal(n);
    assert(is_decimal(decimal_of(mebibytes(bytes)), n) && is_nearest(n, bytes as int));
}

proof fn lemma_tells(n: Option<u32>, unit: Seq<char>)
    ensures
        tells(short_count(n, unit), whole_u32(n), unit),
{
    if let Some(v) = n {
        let digits = decimal_of(v as nat);
        numbers_are_written_in_decimal(v as int);
        assert(is_decimal(digits, v as int) && short_count(n, unit) == digits + unit);
        assert(is_number_with(short_count(n, unit), v as int, unit));
    }
}

/// The row of readings holds the temperature, the power, the clocks, the memory and the load, each
/// in its column: the clock of the graphics before that of the memory, the memory in use before
/// that in all, the power drawn before its limit.
#[verifier::rlimit(40)]
pub proof fn rows_hold_the_readings(gpu: DeviceView, m: MetricsView)
    ensures
        exists|
            temperature: Seq<char>,
            graphics: Seq<char>,
            memory: Seq<char>,
            usage: Seq<char>,
            load: Seq<char>,
        |
        {
            &&& #[trigger] tells(temperature, whole_i64(m.temperature_c), "C"@)
            &&& #[trigger] tells(graphics, whole_u32(m.graphics_mhz), "MHz"@)
            &&& #[trigger] tells(memory, whole_u32(m.memory_mhz), "MHz"@)
            &&& #[trigger] tells_usage(usage, m.memory_used, m.memory_total)
            &&& #[trigger] tells(load, whole_u32(m.utilization), "%"@)
            &&& readings_stand(
                reading_row(m),
                temperature,
                match (m.power_watts, m.power_cap_watts) {
                    (Some(draw), Some(cap)) => draw.whole + "W / "@ + cap.whole + "W"@,
                    _ => "N/A"@,
                },
                graphics + "/"@ + memory,
                usage,
                load,
            )
        },
        device_block(gpu, m)[1] == reading_row(m),
{
    let temperature = temperature_text(m.temperature_c);
    let power = power_text(m.power_watts, m.power_cap_watts);
    let graphics = short_count(m.graphics_mhz, "MHz"@);
    let memory = short_count(m.memory_mhz, "MHz"@);
    let usage = usage_text(m.memory_used, m.memory_total);
    let load = short_count(m.utilization, "%"@);
    lemma_tells(m.graphics_mhz, "MHz"@);
    lemma_tells(m.memory_mhz, "MHz"@);
    lemma_tells(m.utilization, "%"@);
    if let Some(t) = m.temperature_c {
        let digits = signed_decimal_of(t as int);
        numbers_are_written_in_decimal(t as int);
        assert(is_decimal(digits, t as int) && temperature == digits + "C"@);
        assert(is_number_with(temperature, t as int, "C"@));
    }
    assert(tells(temperature, whole_i64(m.temperature_c), "C"@));
    if let (Some(used), Some(total)) = (m.memory_used, m.memory_total) {
        lemma_writes_mebibytes(used);
        lemma_writes_mebibytes(total);
    }
    assert(tells_usage(usage, m.memory_used, m.memory_total));
    reading_columns_line_up(temperature, power, graphics + "/"@ + memory, usage, load);
    assert(readings_stand(reading_row(m), temperature, power, graphics + "/"@ + memory, usage, load));
}

/// What went wrong stands below the rows of the device it went wrong with, and a line below that.
pub proof fn issues_stand_below_the_readings(gpu: DeviceView, m: MetricsView)
    ensures
        m.issue matches Some(issue) ==> {
            let text = shortened("Telemetry: "@ + issue, 87);
            &&& device_block(gpu, m).len() == 4
            &&& stands_at(device_block(gpu, m)[2], text, 2)
            &&& device_block(gpu, m)[3] == split_line()
        },
        m.issue is None ==> device_block(gpu, m).len() == 3 && device_block(gpu, m)[2]
            == split_line(),
{
    if let Some(issue) = m.issue {
        frames_hold_their_text("Telemetry: "@ + issue);
    }
}

// ---------------------------------------------------------------------------
// Laws on the table
// ---------------------------------------------------------------------------
/// An amount of memory as the nearest number of mebibytes; `N/A` if it is not known.
pub open spec fn tells_memory(text: Seq<char>, bytes: Option<u64>) -> bool {
    match bytes {
        Some(bytes) => is_memory(text, bytes as int),
        None => text == "N/A"@,
    }
}

/// The number of mebibytes nearest to `bytes`, and the unit.
pub open spec fn is_memory(text: Seq<char>, bytes: int) -> bool {
    exists|digits: Seq<char>| #[trigger] writes_mebibytes(digits, bytes) && text == digits + "MiB"@
}

/// Which text stands in which column of the row of a process.
pub open spec fn process_stands(
    row: Seq<char>,
    gpu: Seq<char>,
    pid: Seq<char>,
    name: Seq<char>,
    memory: Seq<char>,
) -> bool {
    &&& row.len() == 91
    &&& row[0] == '|' && row[90] == '|'
    &&& stands_at(row, gpu, 2)
    &&& stands_at(row, pid, 7)
    &&& stands_at(row, name, 16)
    &&& stands_at(row, memory, 89 - memory.len())
}

proof fn lemma_process_stands(
    gpu: Seq<char>,
    pid: Seq<char>,
    name: Seq<char>,
    memory: Seq<char>,
)
    requires
        gpu.len() <= 3,
        pid.len() <= 7,
        name.len() <= 60,
        memory.len() <= 12,
    ensures
        process_stands(process_row_of(gpu, pid, name, memory), gpu, pid, name, memory),
{
    reveal_strlit("| ");
    reveal_strlit("  ");
    reveal_strlit(" ");
    reveal_strlit(" |");
    let row = process_row_of(gpu, pid, name, memory);
    assert(row.len() == 91);
    assert(row.subrange(2, 2int + gpu.len()) =~= gpu);
    assert(row.subrange(7, 7int + pid.len()) =~= pid);
    assert(row.subrange(16, 16int + name.len()) =~= name);
    assert(row.subrange(89 - memory.len(), 89) =~= memory);
}

/// The row of a process holds the index of the device, the number and the name of the process, and
/// the memory that it holds there, each in its column.
pub proof fn rows_hold_what_the_process_is(p: ProcessView)
    requires
        fits(p),
    ensures
        exists|gpu: Seq<char>, pid: Seq<char>, memory: Seq<char>| #[trigger]
            is_decimal(gpu, p.gpu as int) && #[trigger] is_decimal(pid, p.pid as int) && #[trigger]
            tells_memory(memory, p.memory) && process_stands(
                process_row(p),
                gpu,
                pid,
                shortened(p.name, 60),
                memory,
            ),
{
    let gpu = decimal_of(p.gpu as nat);
    let pid = decimal_of(p.pid as nat);
    let memory = match p.memory {
        Some(bytes) => decimal_of(mebibytes(bytes)) + "MiB"@,
        None => "N/A"@,
    };
    reveal_strlit("MiB");
    reveal_strlit("N/A");
    assert(numbers_of(3, 10) == 1_000 && numbers_of(7, 10) == 10_000_000 && numbers_of(9, 10)
        == 1_000_000_000) by {
        reveal_with_fuel(numbers_of, 10);
    }
    decimal_width(p.gpu as nat, 3);
    decimal_width(p.pid as nat, 7);
    shortened_fits(p.name, 60);
    if let Some(bytes) = p.memory {
        decimal_width(mebibytes(bytes), 9);
        lemma_writes_mebibytes(bytes);
        assert(is_memory(memory, bytes as int));
    }
    assert(tells_memory(memory, p.memory));
    lemma_process_stands(gpu, pid, shortened(p.name, 60), memory);
    numbers_are_written_in_decimal(p.gpu as int);
    numbers_are_written_in_decimal(p.pid as int);
    assert(is_decimal(gpu, p.gpu as int) && is_decimal(pid, p.pid as int));
}

proof fn lemma_block_place(devices: Seq<(DeviceView, MetricsView)>, i: int)
    requires
        0 <= i < devices.len(),
    ensures
        ({
            let from = block_lines(devices.take(i)) as int;
            let block = device_block(devices[i].0, devices[i].1);
            &&& from + block.len() <= device_blocks(devices).len()
            &&& device_blocks(devices).subrange(from, from + block.len()) == block
        }),
    decreases devices.len(),
{
    let front = devices.drop_last();
    let from = block_lines(devices.take(i)) as int;
    let block = device_block(devices[i].0, devices[i].1);
    lemma_even_blocks(devices);
    lemma_even_blocks(front);
    if i == devices.len() - 1 {
        assert(devices.take(i) =~= front);
        assert(device_blocks(devices).subrange(from, from + block.len()) =~= block);
    } else {
        lemma_block_place(front, i);
        assert(front.take(i) =~= devices.take(i));
        assert(device_blocks(devices).subrange(from, from + block.len()) =~= device_blocks(
            front,
        ).subrange(from, from + block.len()));
    }
}

/// The lines of each device stand in the table in the order of the devices, each with the readings
/// of its own: those of the first from the eighth line on, those of each other behind the one
/// before.
#[verifier::rlimit(40)]
pub proof fn devices_stand_in_order(
    devices: Seq<(DeviceView, MetricsView)>,
    processes: Seq<ProcessView>,
    stamp: Seq<char>,
    version: Seq<char>,
    i: int,
)
    requires
        0 <= i < devices.len(),
    ensures
        ({
            let lines = table_lines(devices, processes, stamp, version);
            let from = 7int + block_lines(devices.take(i));
            let (gpu, m) = devices[i];
            &&& from + 3 <= lines.len()
            &&& lines[from] == name_row(gpu, m)
            &&& lines[from + 1] == reading_row(m)
            &&& m.issue matches Some(issue) ==> lines[from + 2] == frame_of("Telemetry: "@ + issue)
                && lines[from + 3] == split_line()
            &&& m.issue is None ==> lines[from + 2] == split_line()
            &&& block_lines(devices.take(i + 1)) == block_lines(devices.take(i)) + if m.issue is Some {
                4int
            } else {
                3int
            }
        }),
        block_lines(devices.take(0)) == 0,
{
    let lines = table_lines(devices, processes, stamp, version);
    let head = table_head(devices[0].0.driver, stamp, version);
    let blocks = device_blocks(devices);
    let from = block_lines(devices.take(i)) as int;
    let (gpu, m) = devices[i];
    let block = device_block(gpu, m);
    lemma_block_place(devices, i);
    assert(devices.take(i + 1).drop_last() =~= devices.take(i));
    assert(head.len() == 7);
    assert forall|k: int| 0 <= k < block.len() implies #[trigger] lines[7 + from + k] == block[k] by {
        assert(lines[7 + from + k] == blocks[from + k]);
        assert(blocks.subrange(from, from + block.len())[k] == blocks[from + k]);
    }
    assert(lines[7 + from + 0] == block[0]);
    assert(lines[7 + from + 1] == block[1]);
    assert(lines[7 + from + 2] == block[2]);
    if let Some(issue) = m.issue {
        assert(lines[7 + from + 3] == block[3]);
    }
}

/// The rows of the processes stand below the devices, in the order of the processes; where there is
/// none, the table says so. Below them the table says which processes it shows.
#[verifier::rlimit(40)]
pub proof fn processes_stand_in_order(
    devices: Seq<(DeviceView, MetricsView)>,
    processes: Seq<ProcessView>,
    stamp: Seq<char>,
    version: Seq<char>,
)
    ensures
        ({
            let lines = table_lines(devices, processes, stamp, version);
            let from = 13int + block_lines(devices);
            &&& forall|i: int|
                0 <= i < processes.len() ==> #[trigger] lines[from + i] == process_row(processes[i])
            &&& processes.len() == 0 ==> stands_at(lines[from], "No visible GPU processes"@, 2)
            &&& stands_at(
                lines[lines.len() - 2],
                "Visible processes only (/proc permissions); VRAM uses DRM fdinfo when available"@,
                2,
            )
            &&& stands_at(lines[from - 4], "Processes: GPU device users"@, 2)
            &&& process_stands(lines[from - 2], "GPU"@, "PID"@, "Process name"@, "GPU Memory"@)
        }),
{
    let lines = table_lines(devices, processes, stamp, version);
    let from = 13int + block_lines(devices);
    let rows = process_rows(processes);
    lemma_process_lines(devices, processes, stamp, version);
    assert forall|i: int| 0 <= i < processes.len() implies #[trigger] lines[from + i] == process_row(
        processes[i],
    ) by {
        assert(lines.subrange(from, from + rows.len())[i] == lines[from + i]);
    }
    if processes.len() == 0 {
        assert(lines.subrange(from, from + rows.len())[0] == lines[from]);
    }
    lemma_said_of_processes();
}

/// Where the lines on processes stand.
proof fn lemma_process_lines(
    devices: Seq<(DeviceView, MetricsView)>,
    processes: Seq<ProcessView>,
    stamp: Seq<char>,
    version: Seq<char>,
)
    ensures
        ({
            let lines = table_lines(devices, processes, stamp, version);
            let from = 13int + block_lines(devices);
            let rows = process_rows(processes);
            &&& from + rows.len() <= lines.len()
            &&& lines.subrange(from, from + rows.len()) == rows
            &&& lines[from - 4] == process_head()[2]
            &&& lines[from - 2] == process_head()[4]
            &&& lines[lines.len() - 2] == table_foot()[0]
        }),
{
    let above = table_head(devices[0].0.driver, stamp, version) + device_blocks(devices);
    let rows = process_rows(processes);
    let lines = table_lines(devices, processes, stamp, version);
    let from = 13int + block_lines(devices);
    lemma_even_blocks(devices);
    assert(table_head(devices[0].0.driver, stamp, version).len() == 7);
    assert(process_head().len() == 6);
    assert(above.len() == from - 6);
    assert(lines == above + process_head() + rows + table_foot());
    assert(lines.subrange(from, from + rows.len()) =~= rows);
}

/// What the table says of processes, beside their rows.
proof fn lemma_said_of_processes()
    ensures
        stands_at(frame_of("No visible GPU processes"@), "No visible GPU processes"@, 2),
        stands_at(frame_of("Processes: GPU device users"@), "Processes: GPU device users"@, 2),
        stands_at(
            frame_of(
                "Visible processes only (/proc permissions); VRAM uses DRM fdinfo when available"@,
            ),
            "Visible processes only (/proc permissions); VRAM uses DRM fdinfo when available"@,
            2,
        ),
        process_stands(
            process_row_of("GPU"@, "PID"@, "Process name"@, "GPU Memory"@),
            "GPU"@,
            "PID"@,
            "Process name"@,
            "GPU Memory"@,
        ),
{
    let none = "No visible GPU processes"@;
    let users = "Processes: GPU device users"@;
    let only = "Visible processes only (/proc permissions); VRAM uses DRM fdinfo when available"@;
    assert(stands_at(frame_of(none), none, 2)) by {
        reveal_strlit("No visible GPU processes");
        lemma_framed(none);
    }
    assert(stands_at(frame_of(users), users, 2)) by {
        reveal_strlit("Processes: GPU device users");
        lemma_framed(users);
    }
    assert(stands_at(frame_of(only), only, 2)) by {
        reveal_strlit(
            "Visible processes only (/proc permissions); VRAM uses DRM fdinfo when available",
        );
        lemma_framed(only);
    }
    assert("GPU"@.len() == 3 && "PID"@.len() == 3 && "Process name"@.len() == 12
        && "GPU Memory"@.len() == 10) by {
        reveal_strlit("GPU");
        reveal_strlit("PID");
        reveal_strlit("Process name");
        reveal_strlit("GPU Memory");
    }
    lemma_process_stands("GPU"@, "PID"@, "Process name"@, "GPU Memory"@);
}

proof fn lemma_framed(text: Seq<char>)
    requires
        text.len() <= 87,
        forall|i: int| 0 <= i < text.len() ==> !is_control(#[trigger] text[i]),
    ensures
        stands_at(frame_of(text), text, 2),
{
    frames_hold_their_text(text);
    fitting_text_is_shown(text, 87);
}

/// The table begins with the time; its title names the program and its version, and the driver of
/// the first device; the heads of the columns stand where the columns do.
#[verifier::rlimit(40)]
pub proof fn the_head_names_time_version_and_driver(
    devices: Seq<(DeviceView, MetricsView)>,
    processes: Seq<ProcessView>,
    stamp: Seq<char>,
    version: Seq<char>,
)
    requires
        devices.len() > 0,
        encode_utf8(shortened("RADEON-SMI "@ + version, 43)).len() == shortened(
            "RADEON-SMI "@ + version,
            43,
        ).len(),
    ensures
        ({
            let lines = table_lines(devices, processes, stamp, version);
            let left = shortened("RADEON-SMI "@ + version, 43);
            let right = shortened("Driver: "@ + devices[0].0.driver, 44);
            &&& lines[0] == stamp
            &&& stands_at(lines[2], left, 2)
            &&& stands_at(lines[2], right, 89 - right.len())
            &&& names_stand(lines[4], "GPU"@, "Name"@, "Bus-Id"@, "Volatile Uncorr. ECC"@)
            &&& stands_at(lines[4], "Disp.A"@, 60)
            &&& readings_stand(
                lines[5],
                "Temp"@,
                "Power"@,
                "Clocks GFX/MEM"@,
                "Memory-Usage"@,
                "GPU-Util"@,
            )
        }),
{
    let driver = devices[0].0.driver;
    let lines = table_lines(devices, processes, stamp, version);
    let head = table_head(driver, stamp, version);
    assert(head.len() == 7);
    assert(lines[0] == head[0] && lines[2] == head[2] && lines[4] == head[4] && lines[5] == head[5]);
    title_width("RADEON-SMI "@ + version, "Driver: "@ + driver);
    lemma_head_of_names();
    lemma_head_of_readings();
}

proof fn lemma_head_of_names()
    ensures
        ({
            let row = cells_of(
                gpu_name_of("GPU"@, "Name"@),
                bus_display_of("Bus-Id"@, "Disp.A"@),
                right_cell_of("Volatile Uncorr. ECC"@),
            );
            names_stand(row, "GPU"@, "Name"@, "Bus-Id"@, "Volatile Uncorr. ECC"@) && stands_at(
                row,
                "Disp.A"@,
                60,
            )
        }),
{
    let ecc = "Volatile Uncorr. ECC"@;
    let display = "Disp.A"@;
    assert(shortened(ecc, 21) == ecc && ecc.len() == 20) by {
        reveal_strlit("Volatile Uncorr. ECC");
        fitting_text_is_shown(ecc, 21);
    }
    assert(shortened(display, 6) == display && display.len() == 6) by {
        reveal_strlit("Disp.A");
        fitting_text_is_shown(display, 6);
    }
    name_columns_line_up("GPU"@, "Name"@, "Bus-Id"@, display, ecc);
    lemma_bars("GPU"@, "Name"@, "Bus-Id"@, display, ecc);
}

proof fn lemma_head_of_readings()
    ensures
        readings_stand(
            cells_of(
                temp_power_clocks_of("Temp"@, "Power"@, "Clocks GFX/MEM"@),
                memory_cell_of("Memory-Usage"@),
                right_cell_of("GPU-Util"@),
            ),
            "Temp"@,
            "Power"@,
            "Clocks GFX/MEM"@,
            "Memory-Usage"@,
            "GPU-Util"@,
        ),
{
    reading_columns_line_up("Temp"@, "Power"@, "Clocks GFX/MEM"@, "Memory-Usage"@, "GPU-Util"@);
}

/// The lines between the parts of the table: where cells meet, or at the ends, a plus sign, and
/// hyphens elsewhere; equal signs between the heads of the columns and the devices.
pub proof fn lines_are_ruled(
    devices: Seq<(DeviceView, MetricsView)>,
    processes: Seq<ProcessView>,
    stamp: Seq<char>,
    version: Seq<char>,
)
    ensures
        ({
            let lines = table_lines(devices, processes, stamp, version);
            &&& lines[1] == border_line() && lines[3] == split_line()
            &&& lines[6].len() == 91
            &&& forall|i: int|
                0 <= i < 91 ==> #[trigger] lines[6][i] == if i == 0 || i == 42 || i == 67 || i == 90 {
                    '+'
                } else {
                    '='
                }
        }),
        border_line().len() == 91,
        split_line().len() == 91,
        forall|i: int|
            0 <= i < 91 ==> #[trigger] border_line()[i] == if i == 0 || i == 90 {
                '+'
            } else {
                '-'
            },
        forall|i: int|
            0 <= i < 91 ==> #[trigger] split_line()[i] == if i == 0 || i == 42 || i == 67 || i == 90 {
                '+'
            } else {
                '-'
            },
{
    reveal_strlit("+");
    reveal_strlit("=");
    lemma_replaced(split_line(), '-', "="@);
    let head = table_head(devices[0].0.driver, stamp, version);
    let lines = table_lines(devices, processes, stamp, version);
    assert(head.len() == 7);
    assert(lines[1] == head[1] && lines[3] == head[3] && lines[6] == head[6]);
}

// ---------------------------------------------------------------------------
// Laws on lists, details and queries
// ---------------------------------------------------------------------------
/// Each device has a line in the list, with its index, its name and its bus id in the long form.
pub proof fn each_device_has_a_line(devices: Seq<DeviceView>, i: int)
    requires
        0 <= i < devices.len(),
        devices[i].index >= 0,
    ensures
        list_lines(devices).len() == devices.len(),
        exists|index: Seq<char>| #[trigger]
            is_decimal(index, devices[i].index) && list_lines(devices)[i] == "GPU "@ + index + ": "@
                + devices[i].name + " (PCI "@ + long_bus_id(devices[i].bus_id) + ")"@,
{
    numbers_are_written_in_decimal(devices[i].index);
    assert(is_decimal(decimal_of(devices[i].index as nat), devices[i].index));
}

/// The list of fields has a heading and a line for each field that a query can ask for.
pub proof fn each_field_has_a_line(i: int)
    requires
        0 <= i < field_names().len(),
    ensures
        field_lines().len() == 21,
        field_lines()[0] == "Supported --query-gpu fields (unsupported hardware values are N/A):"@,
        field_lines()[1 + i] == "  "@ + field_names()[i],
{
}

/// The details of a device: its index and name, each field with its value and its unit, what went
/// wrong, and an empty line.
pub proof fn details_show_every_field(gpu: DeviceView, m: MetricsView, stamp: Seq<char>, k: int)
    requires
        0 <= k < field_names().len(),
        gpu.index >= 0,
    ensures
        ({
            let block = detail_block(gpu, m, stamp);
            &&& block.len() == if m.issue is Some {
                23int
            } else {
                22int
            }
            &&& exists|index: Seq<char>| #[trigger]
                is_decimal(index, gpu.index) && block[0] == "GPU "@ + index + ": "@ + gpu.name
            &&& block[1 + k] == "    "@ + field_names()[k] + ": "@ + value_of(
                field_names()[k],
                gpu,
                m,
                stamp,
                false,
            )
            &&& m.issue matches Some(issue) ==> block[21] == "    telemetry_error: "@ + issue
            &&& block.last().len() == 0
        }),
{
    numbers_are_written_in_decimal(gpu.index);
    assert(is_decimal(decimal_of(gpu.index as nat), gpu.index));
}

/// How many lines the details of the devices take: 22 each, and one more for each with an issue.
pub open spec fn detail_count(devices: Seq<(DeviceView, MetricsView)>) -> nat
    decreases devices.len(),
{
    if devices.len() == 0 {
        0
    } else {
        detail_count(devices.drop_last()) + if devices.last().1.issue is Some {
            23nat
        } else {
            22nat
        }
    }
}

proof fn lemma_detail_count(devices: Seq<(DeviceView, MetricsView)>, stamp: Seq<char>)
    ensures
        detail_lines(devices, stamp).len() == detail_count(devices),
    decreases devices.len(),
{
    if devices.len() > 0 {
        lemma_detail_count(devices.drop_last(), stamp);
    }
}

/// The details of the devices stand in the order of the devices, each with the readings of its own.
pub proof fn details_stand_in_order(
    devices: Seq<(DeviceView, MetricsView)>,
    stamp: Seq<char>,
    i: int,
)
    requires
        0 <= i < devices.len(),
    ensures
        ({
            let block = detail_block(devices[i].0, devices[i].1, stamp);
            let from = detail_count(devices.take(i)) as int;
            &&& from + block.len() <= detail_lines(devices, stamp).len()
            &&& detail_lines(devices, stamp).subrange(from, from + block.len()) == block
        }),
    decreases devices.len(),
{
    let front = devices.drop_last();
    let from = detail_count(devices.take(i)) as int;
    let block = detail_block(devices[i].0, devices[i].1, stamp);
    lemma_detail_count(devices, stamp);
    lemma_detail_count(front, stamp);
    if i == devices.len() - 1 {
        assert(devices.take(i) =~= front);
        assert(detail_lines(devices, stamp).subrange(from, from + block.len()) =~= block);
    } else {
        details_stand_in_order(front, stamp, i);
        assert(front.take(i) =~= devices.take(i));
        assert(detail_lines(devices, stamp).subrange(from, from + block.len()) =~= detail_lines(
            front,
            stamp,
        ).subrange(from, from + block.len()));
    }
}

/// The first line of the first answer to a query names the fields in the order in which they were
/// asked for, with a comma and a space between them, unless that is not wanted.
pub proof fn the_first_answer_names_its_fields(
    devices: Seq<(DeviceView, MetricsView)>,
    stamp: Seq<char>,
    options: OptionsView,
)
    ensures
        !options.noheader ==> query_lines(devices, stamp, options, true)[0] == joined(
            options.fields,
            seq![',', ' '],
        ) && query_lines(devices, stamp, options, true).skip(1) == query_lines(
            devices,
            stamp,
            options,
            false,
        ),
        options.noheader ==> query_lines(devices, stamp, options, true) == query_lines(
            devices,
            stamp,
            options,
            false,
        ),
        query_lines(devices, stamp, options, false).len() == devices.len(),
{
    reveal_strlit(", ");
    assert(", "@ =~= seq![',', ' ']);
    assert(!options.noheader ==> query_lines(devices, stamp, options, true).skip(1) =~= query_lines(
        devices,
        stamp,
        options,
        false,
    ));
    assert(options.noheader ==> query_lines(devices, stamp, options, true) =~= query_lines(
        devices,
        stamp,
        options,
        false,
    ));
}

} // verus!
