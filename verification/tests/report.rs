use radeon_smi::csv::csv_escape;
use radeon_smi::device::{Device, Metrics, Watts};
use radeon_smi::layout::{
    bus_display, cells, frame, gpu_name, memory_cell, right_cell, shorten, temp_power_clocks,
    title,
};
use radeon_smi::options::{fields, parse, Options};
use radeon_smi::process::Process;
use radeon_smi::report::{bus_id, detail, list, list_fields, mib, query, table, value};

fn gpu() -> Device {
    Device {
        index: 0,
        bus_id: "0000:01:00.0".to_owned(),
        name: "Radeon R7 250".to_owned(),
        driver: "radeon".to_owned(),
        sysfs: "/sys/class/drm/card0/device".to_owned(),
        node: "/dev/dri/renderD128".to_owned(),
        card: "card0".to_owned(),
    }
}

fn watts(whole: &str, hundredths: &str) -> Option<Watts> {
    Some(Watts {
        microwatts: 0,
        whole: whole.to_owned(),
        hundredths: hundredths.to_owned(),
    })
}

fn known() -> Metrics {
    Metrics {
        temperature_c: Some(30),
        utilization: Some(7),
        memory_total: Some(2_147_483_648),
        memory_used: Some(378_535_936),
        gtt_total: Some(1_073_741_824),
        gtt_used: Some(1_572_864),
        visible_memory_total: Some(268_435_456),
        visible_memory_used: Some(0),
        fan_rpm: Some(1200),
        graphics_mhz: Some(300),
        memory_mhz: Some(1150),
        power_watts: watts("12", "12.34"),
        power_cap_watts: watts("65", "65.00"),
        display_active: Some(false),
        issue: None,
    }
}

fn options(list: &[&str]) -> Options {
    let args: Vec<String> = list.iter().map(|s| (*s).to_owned()).collect();
    parse(&args).ok().unwrap()
}

#[test]
fn csv_escapes_names() {
    assert_eq!(csv_escape("A, \"B\""), "\"A, \"\"B\"\"\"");
}

#[test]
fn only_special_texts_are_quoted() {
    assert_eq!(csv_escape("plain text"), "plain text");
    assert_eq!(csv_escape(""), "");
    assert_eq!(csv_escape("a\nb"), "\"a\nb\"");
    assert_eq!(csv_escape("a\rb"), "\"a\rb\"");
    assert_eq!(csv_escape("\""), "\"\"\"\"");
}

#[test]
fn table_headers_and_values_share_column_positions() {
    let header = cells(
        &gpu_name("GPU", "Name"),
        &bus_display("Bus-Id", "Disp.A"),
        &right_cell("Volatile Uncorr. ECC"),
    );
    let data = cells(
        &gpu_name("0", "Radeon R7 250"),
        &bus_display("00000000:01:00.0", "Off"),
        &right_cell("N/A"),
    );
    assert_eq!(header.len(), 91);
    assert_eq!(data.len(), 91);
    assert_eq!(
        header.find("Name").unwrap() + 4,
        data.find("Radeon R7 250").unwrap() + 13
    );
    assert_eq!(header.find("Bus-Id"), data.find("00000000:01:00.0"));
    assert_eq!(
        header.find("Disp.A").unwrap() + 6,
        data.find("Off").unwrap() + 3
    );
    assert_eq!(
        header.find("ECC").unwrap() + 3,
        data.find("N/A").unwrap() + 3
    );

    let header = cells(
        &temp_power_clocks("Temp", "Power", "Clocks GFX/MEM"),
        &memory_cell("Memory-Usage"),
        &right_cell("GPU-Util"),
    );
    let data = cells(
        &temp_power_clocks("30C", "N/A", "300MHz/300MHz"),
        &memory_cell("361MiB / 2048MiB"),
        &right_cell("0%"),
    );
    assert_eq!(header.len(), 91);
    assert_eq!(data.len(), 91);
    assert_eq!(header.find("Temp"), data.find("30C"));
    assert_eq!(header.find("Power"), data.find("N/A"));
    assert_eq!(
        header.find("GFX/MEM").unwrap() + 7,
        data.find("300MHz/300MHz").unwrap() + 13
    );
    assert_eq!(
        header.find("Memory-Usage").unwrap() + 12,
        data.find("361MiB / 2048MiB").unwrap() + "361MiB / 2048MiB".len()
    );
    assert_eq!(
        header.find("GPU-Util").unwrap() + 8,
        data.find("0%").unwrap() + 2
    );
}

#[test]
fn texts_are_shortened_without_control_codes() {
    assert_eq!(shorten("a\tb\u{7f}c\u{9b}d", 3), "abc");
    assert_eq!(shorten("abc", 0), "");
    assert_eq!(shorten("\u{2014}\u{2014}\u{2014}", 2), "\u{2014}\u{2014}");
    assert_eq!(shorten(shorten("a\nbcd", 3).as_str(), 3), shorten("a\nbcd", 3));
}

#[test]
fn cells_keep_their_width_whatever_they_hold() {
    let long = "x".repeat(200);
    let row = cells(
        &gpu_name(&long, &long),
        &bus_display(&long, &long),
        &right_cell(&long),
    );
    assert_eq!(row.chars().count(), 91);
    let row = cells(
        &temp_power_clocks(&long, &long, &long),
        &memory_cell(&long),
        &right_cell(&long),
    );
    assert_eq!(row.chars().count(), 91);
    assert_eq!(frame(&long).chars().count(), 91);
    assert_eq!(frame("").chars().count(), 91);
    assert_eq!(title(&long, &long).chars().count(), 91);
}

#[test]
fn a_title_has_room_by_the_bytes_of_its_left_half() {
    let row = title("RADEON-SMI 1", "Driver: radeon");
    assert_eq!(row.len(), 91);
    assert!(row.starts_with("| RADEON-SMI 1 "));
    assert!(row.ends_with(" Driver: radeon |"));
    assert_eq!(title("\u{2014}", "r").chars().count(), 89);
}

#[test]
fn memory_is_rounded_to_the_nearest_mebibyte() {
    assert_eq!(mib(0), 0);
    assert_eq!(mib(524_287), 0);
    assert_eq!(mib(524_288), 1);
    assert_eq!(mib(1_572_863), 1);
    assert_eq!(mib(1_572_864), 2);
    assert_eq!(mib(u64::MAX), 17_592_186_044_415);
    for (a, b) in [(1, 2), (524_287, 524_288), (u64::MAX - 600_000, u64::MAX)] {
        assert!(mib(a) <= mib(b));
    }
}

#[test]
fn bus_ids_have_a_long_form() {
    assert_eq!(bus_id("0000:01:00.0"), "00000000:01:00.0");
    assert_eq!(bus_id("000a:0b:00.0"), "0000000A:0B:00.0");
    assert_eq!(bus_id("unknown"), "unknown");
    assert_eq!(bus_id("xyz:0a"), "xyz:0a");
    assert_eq!(bus_id("100000000:0a"), "100000000:0a");
    assert_eq!(bus_id(":0a"), ":0a");
    for id in ["000a:0b:00.0", "unknown", "xyz:0a"] {
        assert_eq!(bus_id(bus_id(id).as_str()), bus_id(id));
    }
}

#[test]
fn values_have_units() {
    let expected = [
        ("timestamp", "now", "now"),
        ("index", "0", "0"),
        ("name", "Radeon R7 250", "Radeon R7 250"),
        ("pci.bus_id", "00000000:01:00.0", "00000000:01:00.0"),
        ("display_active", "Disabled", "Disabled"),
        ("memory.total", "2048 MiB", "2048"),
        ("memory.used", "361 MiB", "361"),
        ("memory.free", "1687 MiB", "1687"),
        ("memory.visible.total", "256 MiB", "256"),
        ("memory.visible.used", "0 MiB", "0"),
        ("memory.gtt.total", "1024 MiB", "1024"),
        ("memory.gtt.used", "2 MiB", "2"),
        ("utilization.gpu", "7 %", "7"),
        ("temperature.gpu", "30 C", "30"),
        ("clocks.current.graphics", "300 MHz", "300"),
        ("clocks.current.memory", "1150 MHz", "1150"),
        ("power.draw", "12.34 W", "12.34"),
        ("power.limit", "65.00 W", "65.00"),
        ("fan.speed", "1200 RPM", "1200"),
        ("ecc.errors.uncorrected.volatile.total", "N/A", "N/A"),
    ];
    assert_eq!(expected.len(), fields().len());
    for (field, long, short) in expected {
        assert_eq!(value(field, &gpu(), &known(), "now", false), long);
        assert_eq!(value(field, &gpu(), &known(), "now", true), short);
    }
}

#[test]
fn unknown_values_are_not_available() {
    for field in fields() {
        let shown = value(&field, &gpu(), &Metrics::default(), "now", false);
        if ["timestamp", "index", "name", "pci.bus_id"].contains(&field.as_str()) {
            assert_ne!(shown, "N/A");
        } else {
            assert_eq!(shown, "N/A");
        }
    }
}

#[test]
fn each_field_goes_by_its_own_reading() {
    let mut m = Metrics::default();
    m.memory_total = Some(1_048_576);
    m.power_watts = watts("1", "1.00");
    for field in fields() {
        let shown = value(&field, &gpu(), &m, "now", false);
        match field.as_str() {
            "timestamp" | "index" | "name" | "pci.bus_id" => {}
            "memory.total" => assert_eq!(shown, "1 MiB"),
            "power.draw" => assert_eq!(shown, "1.00 W"),
            _ => assert_eq!(shown, "N/A", "{field}"),
        }
    }
}

#[test]
fn the_case_of_a_bus_id_does_not_matter() {
    assert_eq!(bus_id("000A:0b:00.F"), bus_id("000a:0B:00.f"));
    assert_ne!(bus_id("unknown"), bus_id("UNKNOWN"));
}

#[test]
fn free_memory_is_never_negative() {
    let mut m = known();
    m.memory_used = Some(u64::MAX);
    assert_eq!(value("memory.free", &gpu(), &m, "", false), "0 MiB");
    m.memory_used = None;
    assert_eq!(value("memory.free", &gpu(), &m, "", false), "N/A");
}

#[test]
fn temperatures_can_be_negative() {
    let mut m = known();
    m.temperature_c = Some(-5);
    m.display_active = Some(true);
    assert_eq!(value("temperature.gpu", &gpu(), &m, "", false), "-5 C");
    assert_eq!(value("display_active", &gpu(), &m, "", false), "Enabled");
}

#[test]
fn queries_have_their_header_in_the_first_answer_only() {
    let asked = options(&["--query-gpu=index,name,memory.used", "--format=csv"]);
    let mut second = gpu();
    second.index = 1;
    second.name = "A, \"B\"".to_owned();
    let devices = vec![(gpu(), known()), (second, Metrics::default())];
    let rows = vec!["0, Radeon R7 250, 361 MiB", "1, \"A, \"\"B\"\"\", N/A"];
    let mut whole = vec!["index, name, memory.used"];
    whole.extend(rows.clone());
    assert_eq!(query(&devices, "now", &asked, true), whole);
    assert_eq!(query(&devices, "now", &asked, false), rows);
    let bare = options(&["--query-gpu=memory.used", "--format=csv,noheader,nounits"]);
    assert_eq!(query(&devices, "now", &bare, true), vec!["361", "N/A"]);
}

/// The texts of a row, read by a reader of quotes and commas.
fn read_row(row: &str) -> Vec<String> {
    let mut values = vec![String::new()];
    let mut quoted = false;
    let mut chars = row.chars().peekable();
    while let Some(c) = chars.next() {
        if c == '"' && quoted && chars.peek() == Some(&'"') {
            chars.next();
            values.last_mut().unwrap().push('"');
        } else if c == '"' {
            quoted = !quoted;
        } else if c == ',' && !quoted {
            assert_eq!(chars.next(), Some(' '));
            values.push(String::new());
        } else {
            values.last_mut().unwrap().push(c);
        }
    }
    values
}

#[test]
fn rows_read_back() {
    let asked = options(&["--query-gpu=name,index,timestamp", "--format=csv,noheader"]);
    for name in ["plain", "", "A, \"B\"", "\"", ",,", "a\nb", " \"\", \""] {
        let mut device = gpu();
        device.name = name.to_owned();
        let lines = query(&[(device, known())], name, &asked, true);
        assert_eq!(read_row(&lines[0]), vec![name, "0", name]);
    }
}

#[test]
fn devices_are_listed() {
    assert_eq!(
        list(&vec![gpu()]),
        vec!["GPU 0: Radeon R7 250 (PCI 00000000:01:00.0)"]
    );
    assert!(list(&Vec::new()).is_empty());
}

#[test]
fn fields_are_listed() {
    let lines = list_fields();
    assert_eq!(lines.len(), 21);
    assert_eq!(
        lines[0],
        "Supported --query-gpu fields (unsupported hardware values are N/A):"
    );
    assert_eq!(lines[1], "  timestamp");
    assert_eq!(lines[20], "  ecc.errors.uncorrected.volatile.total");
}

#[test]
fn details_show_every_field() {
    let mut m = known();
    m.issue = Some("broken".to_owned());
    let lines = detail(&[(gpu(), m), (gpu(), known())], "now");
    assert_eq!(lines.len(), 23 + 22);
    assert_eq!(lines[0], "GPU 0: Radeon R7 250");
    assert_eq!(lines[1], "    timestamp: now");
    assert_eq!(lines[6], "    memory.total: 2048 MiB");
    assert_eq!(lines[20], "    ecc.errors.uncorrected.volatile.total: N/A");
    assert_eq!(lines[21], "    telemetry_error: broken");
    assert_eq!(lines[22], "");
    assert_eq!(lines[23], "GPU 0: Radeon R7 250");
    assert_eq!(lines[44], "");
}

#[test]
fn the_table_is_written_line_by_line() {
    let mut m = known();
    m.issue = Some("no\tpermission".to_owned());
    let processes = vec![
        Process {
            gpu: 0,
            pid: 4321,
            name: "game".to_owned(),
            memory: Some(86_827_008),
        },
        Process {
            gpu: 0,
            pid: 5000,
            name: "idle".to_owned(),
            memory: None,
        },
    ];
    let lines = table(&[(gpu(), m)], &processes, "now", "0.1.0");
    let border = format!("+{}+", "-".repeat(89));
    let split = format!("+{}+{}+{}+", "-".repeat(41), "-".repeat(24), "-".repeat(22));
    let expected = vec![
        "now".to_owned(),
        border.clone(),
        format!("| {:<73}Driver: radeon |", "RADEON-SMI 0.1.0"),
        split.clone(),
        format!("| GPU {:>35} | Bus-Id          {:>6} |{:>21} |", "Name", "Disp.A", "Volatile Uncorr. ECC"),
        format!("| {:<8}{:<12}{:>19} |{:>23} |{:>21} |", "Temp", "Power", "Clocks GFX/MEM", "Memory-Usage", "GPU-Util"),
        split.replace('-', "="),
        format!("| {:<4}{:>35} | 00000000:01:00.0{:>6} |{:>21} |", "0", "Radeon R7 250", "Off", "N/A"),
        format!("| {:<8}{:<12}{:>19} |{:>23} |{:>21} |", "30C", "12W / 65W", "300MHz/1150MHz", "361MiB / 2048MiB", "7%"),
        format!("| {:<87} |", "Telemetry: nopermission"),
        split,
        String::new(),
        border.clone(),
        format!("| {:<87} |", "Processes: GPU device users"),
        border.clone(),
        format!("| {:<3}  {:<7}  {:<60} {:>12} |", "GPU", "PID", "Process name", "GPU Memory"),
        border.clone(),
        format!("| {:<3}  {:<7}  {:<60} {:>12} |", "0", "4321", "game", "83MiB"),
        format!("| {:<3}  {:<7}  {:<60} {:>12} |", "0", "5000", "idle", "N/A"),
        format!("| {:<87} |", "Visible processes only (/proc permissions); VRAM uses DRM fdinfo when available"),
        border,
    ];
    assert_eq!(lines, expected);
}

#[test]
fn the_table_is_91_characters_wide() {
    let mut wide = gpu();
    wide.name = "\u{e9}".repeat(100);
    wide.bus_id = "unknown".to_owned();
    let devices = vec![(wide, Metrics::default()), (gpu(), known())];
    let processes = vec![Process {
        gpu: 999,
        pid: 9_999_999,
        name: "n".repeat(100),
        memory: Some(999_999_999 * 1_048_576),
    }];
    for line in table(&devices, &processes, "now", "0.1.0").iter().skip(1) {
        if !line.is_empty() {
            assert_eq!(line.chars().count(), 91, "{line}");
            assert!(line.starts_with('|') || line.starts_with('+'));
            assert_eq!(line.chars().next(), line.chars().last());
        }
    }
}

#[test]
fn a_table_without_processes_says_so() {
    let lines = table(&[(gpu(), Metrics::default())], &[], "now", "0.1.0");
    assert_eq!(lines.len(), 15 + 3 + 1);
    assert!(lines.contains(&format!("| {:<87} |", "No visible GPU processes")));
    assert!(lines.contains(&format!(
        "| {:<8}{:<12}{:>19} |{:>23} |{:>21} |",
        "N/A", "N/A", "N/A/N/A", "N/A", "N/A"
    )));
}
