use radeon_smi::device::{Device, Watts};
use radeon_smi::telemetry::{
    attribute_files, collect, display_active, hwmon, named_connector, question, sample_busy,
    samples_on, sensor_files, Collector, Connector, DeviceFiles, NamedFile, Reply, Request,
};

fn device(driver: &str) -> Device {
    Device {
        index: 0,
        bus_id: "0000:01:00.0".to_owned(),
        name: "GPU".to_owned(),
        driver: driver.to_owned(),
        sysfs: "/sys/class/drm/card0/device".to_owned(),
        node: "/dev/dri/renderD128".to_owned(),
        card: "card0".to_owned(),
    }
}

fn file(name: &str, contents: Option<&str>) -> NamedFile {
    NamedFile {
        name: name.to_owned(),
        contents: contents.map(str::to_owned),
    }
}

fn nothing() -> DeviceFiles {
    DeviceFiles {
        monitors: Vec::new(),
        attributes: Vec::new(),
        connectors: Vec::new(),
    }
}

fn everything() -> DeviceFiles {
    DeviceFiles {
        monitors: vec![
            vec![file("temp1_input", None), file("fan1_input", Some("1200\n"))],
            vec![
                file("temp1_input", Some("30999\n")),
                file("fan1_input", Some("7\n")),
                file("freq1_input", Some("300000000\n")),
                file("freq2_input", Some("150999999\n")),
                file("power1_average", Some("12340000\n")),
                file("power1_cap", Some("unknown\n")),
            ],
        ],
        attributes: vec![
            file("mem_info_vram_total", Some("2147483648\n")),
            file("mem_info_vram_used", Some("378535936\n")),
            file("mem_info_vis_vram_total", Some("1\n")),
            file("mem_info_vis_vram_used", Some("2\n")),
            file("mem_info_gtt_total", Some("3\n")),
            file("mem_info_gtt_used", Some("x\n")),
            file("gpu_busy_percent", Some("42\n")),
        ],
        connectors: vec![connector("card0-DP-1", Some("enabled\n"))],
    }
}

fn busy(percent: &str) -> DeviceFiles {
    DeviceFiles {
        attributes: vec![file("gpu_busy_percent", Some(percent))],
        ..nothing()
    }
}

fn begin(driver: &str, files: &DeviceFiles) -> Collector {
    let watts = |microwatts: u64| Watts {
        microwatts,
        whole: format!("{}", microwatts / 1_000_000),
        hundredths: format!("{}.{:02}", microwatts / 1_000_000, microwatts / 10_000 % 100),
    };
    collect(
        &device(driver),
        files,
        files.power().map(watts),
        files.power_cap().map(watts),
    )
}

fn connector(name: &str, enabled: Option<&str>) -> Connector {
    Connector {
        name: name.to_owned(),
        enabled: enabled.map(str::to_owned),
    }
}

fn walk(collector: &mut Collector, replies: Vec<Reply>) -> Vec<Request> {
    let mut requests: Vec<Request> = vec![collector.request];
    for reply in replies {
        collector.reply(reply);
        requests.push(collector.request);
    }
    requests
}

#[test]
fn the_first_monitor_with_a_number_counts() {
    let monitors = vec![
        vec![file("a", None), file("b", Some("7"))],
        vec![file("a", Some("n/a\n"))],
        vec![file("b", Some("8")), file("a", Some("30000\n")), file("a", Some("2"))],
        vec![file("a", Some("1\n"))],
    ];
    assert_eq!(hwmon(&monitors, "a"), Some(30_000));
    assert_eq!(hwmon(&monitors, "b"), Some(7));
    assert_eq!(hwmon(&monitors, "c"), None);
    assert_eq!(hwmon(&monitors[..2], "a"), None);
    assert_eq!(hwmon(&[], "a"), None);
}

#[test]
fn a_display_is_active_if_a_connector_is() {
    assert_eq!(display_active("card0", &[]), None);
    assert_eq!(
        display_active("card0", &[connector("card0-DP-1", None), connector("card0", Some("enabled"))]),
        None
    );
    assert_eq!(
        display_active(
            "card0",
            &[
                connector("card0-DP-1", Some("disabled\n")),
                connector("card1-DP-1", Some("enabled\n")),
                connector("card01-DP-1", Some("enabled\n")),
            ]
        ),
        Some(false)
    );
    assert_eq!(
        display_active(
            "card0",
            &[
                connector("card0-DP-1", Some("enabled\n")),
                connector("card0-DP-2", Some("disabled\n")),
            ]
        ),
        Some(true)
    );
}

#[test]
fn busy_samples_are_rounded_to_a_percentage() {
    let busy = Some(0x8000_0000);
    let idle = Some(0x7fff_ffff);
    assert_eq!(sample_busy(&[busy, busy, busy, busy]), None);
    assert_eq!(sample_busy(&[busy, busy, busy, busy, busy]), Some(100));
    assert_eq!(sample_busy(&[idle, idle, idle, idle, idle]), Some(0));
    assert_eq!(sample_busy(&[busy, idle, idle, idle, idle]), Some(20));
    assert_eq!(sample_busy(&[busy, idle, idle, idle, idle, idle]), Some(17));
    assert_eq!(sample_busy(&[busy, busy, idle, idle, idle, idle, idle]), Some(29));
    assert_eq!(sample_busy(&[busy, busy, busy, busy, busy, None]), None);
    assert_eq!(sample_busy(&[]), None);
}

#[test]
fn files_are_read_before_the_device_is_opened() {
    let c = begin("amdgpu", &everything());
    assert_eq!(c.request, Request::Open);
    let m = c.metrics;
    assert_eq!(m.temperature_c, Some(30));
    assert_eq!(m.graphics_mhz, Some(300));
    assert_eq!(m.memory_mhz, Some(150));
    assert_eq!(m.fan_rpm, Some(1200));
    assert_eq!(m.display_active, Some(true));
    assert_eq!(m.memory_total, Some(2_147_483_648));
    assert_eq!(m.memory_used, Some(378_535_936));
    assert_eq!(m.visible_memory_total, Some(1));
    assert_eq!(m.visible_memory_used, Some(2));
    assert_eq!(m.gtt_total, Some(3));
    assert_eq!(m.gtt_used, None);
    assert_eq!(m.utilization, Some(42));
    assert_eq!(m.power_watts.unwrap().hundredths, "12.34");
    assert!(m.power_cap_watts.is_none() && m.issue.is_none());
}

#[test]
fn radeon_has_no_numbers_in_files() {
    let m = begin("radeon", &everything()).metrics;
    assert_eq!(m.temperature_c, Some(30));
    assert!(m.memory_total.is_none() && m.memory_used.is_none() && m.gtt_total.is_none());
    assert!(m.visible_memory_total.is_none() && m.utilization.is_none());
}

#[test]
fn a_utilization_above_100_is_none() {
    assert_eq!(begin("amdgpu", &busy("101")).metrics.utilization, None);
    assert_eq!(begin("amdgpu", &busy("100")).metrics.utilization, Some(100));
    assert_eq!(begin("radeon", &busy("100")).metrics.utilization, None);
}

#[test]
fn a_device_that_cannot_be_opened_keeps_its_readings() {
    let mut c = begin("amdgpu", &everything());
    c.reply(Reply::Refused("Permission denied (os error 13)".to_owned()));
    assert_eq!(c.request, Request::Done);
    assert_eq!(c.metrics.temperature_c, Some(30));
    assert_eq!(
        c.metrics.issue.unwrap(),
        "cannot open /dev/dri/renderD128: Permission denied (os error 13); check render/video device permissions"
    );
}

#[test]
fn amdgpu_sensors_count_for_more_than_files() {
    let mut c = begin("amdgpu", &everything());
    let requests = walk(
        &mut c,
        vec![Reply::Opened, Reply::Number(900), Reply::Nothing, Reply::Number(45_999)],
    );
    assert_eq!(
        requests,
        vec![
            Request::Open,
            Request::Sensor(1),
            Request::Sensor(2),
            Request::Sensor(3),
            Request::Done,
        ]
    );
    assert_eq!(c.metrics.graphics_mhz, Some(900));
    assert_eq!(c.metrics.memory_mhz, Some(150));
    assert_eq!(c.metrics.temperature_c, Some(45));
    assert_eq!(c.metrics.utilization, Some(42));
    assert!(c.metrics.issue.is_none());
}

#[test]
fn amdgpu_is_sampled_on_chips_that_show_activity() {
    for (family, sampled) in [(110, true), (120, true), (111, false), (0, false)] {
        let mut c = begin("amdgpu", &nothing());
        let requests = walk(
            &mut c,
            vec![
                Reply::Opened,
                Reply::Nothing,
                Reply::Nothing,
                Reply::Nothing,
                Reply::Number(family),
            ],
        );
        assert_eq!(requests[4], Request::Family);
        if sampled {
            assert_eq!(requests[5], Request::Busy);
            c.reply(Reply::Number(13));
            assert_eq!(c.metrics.utilization, Some(13));
        } else {
            assert_eq!(c.metrics.utilization, None);
        }
        assert_eq!(c.request, Request::Done);
        assert!(c.metrics.issue.is_none());
    }
}

#[test]
fn amdgpu_without_a_family_is_not_sampled() {
    let mut c = begin("amdgpu", &nothing());
    let requests = walk(
        &mut c,
        vec![Reply::Opened, Reply::Nothing, Reply::Nothing, Reply::Nothing, Reply::Nothing],
    );
    assert_eq!(requests[5], Request::Done);
}

#[test]
fn radeon_is_asked_for_memory_clocks_and_activity() {
    let mut c = begin("radeon", &nothing());
    let requests = walk(
        &mut c,
        vec![
            Reply::Opened,
            Reply::Number(2_147_483_648),
            Reply::Number(5_000_000_000),
            Reply::Number(300),
            Reply::Number(150),
            Reply::Number(66),
        ],
    );
    assert_eq!(
        requests,
        vec![
            Request::Open,
            Request::MemorySize,
            Request::MemoryUsage,
            Request::GraphicsClock,
            Request::MemoryClock,
            Request::Busy,
            Request::Done,
        ]
    );
    assert_eq!(c.metrics.memory_total, Some(2_147_483_648));
    assert_eq!(c.metrics.memory_used, Some(5_000_000_000));
    assert_eq!(c.metrics.graphics_mhz, Some(300));
    assert_eq!(c.metrics.memory_mhz, Some(150));
    assert_eq!(c.metrics.utilization, Some(66));
    assert!(c.metrics.issue.is_none());
}

#[test]
fn silence_of_radeon_keeps_the_readings_of_files() {
    let mut c = begin("radeon", &everything());
    walk(
        &mut c,
        vec![
            Reply::Opened,
            Reply::Nothing,
            Reply::Nothing,
            Reply::Nothing,
            Reply::Nothing,
            Reply::Nothing,
        ],
    );
    assert_eq!(c.request, Request::Done);
    assert_eq!(c.metrics.graphics_mhz, Some(300));
    assert_eq!(c.metrics.memory_total, None);
    assert_eq!(
        c.metrics.issue.unwrap(),
        "GPU utilization is unavailable through the radeon DRM query interface"
    );
}

fn asked(amdgpu: bool, request: Request) -> Option<(u64, u32, [u32; 4], u32, u32)> {
    question(amdgpu, request, 300).map(|q| (q.number, q.query, q.data, q.start, q.size))
}

#[test]
fn questions_stand_for_requests() {
    let amdgpu = 0x4020_6445;
    let radeon = 0xc010_6467;
    assert_eq!(
        asked(true, Request::Sensor(1)),
        Some((amdgpu, 0x1d, [1, 0, 0, 0], 0, 4))
    );
    assert_eq!(
        asked(true, Request::Sensor(3)),
        Some((amdgpu, 0x1d, [3, 0, 0, 0], 0, 4))
    );
    assert_eq!(asked(true, Request::Family), Some((amdgpu, 0x16, [0; 4], 0, 20)));
    assert_eq!(
        asked(true, Request::Busy),
        Some((amdgpu, 0x15, [0x2004, 1, u32::MAX, 0], 0x8010, 4))
    );
    assert_eq!(
        asked(false, Request::MemorySize),
        Some((0xc018_645c, 0, [0; 4], 0, 24))
    );
    assert_eq!(asked(false, Request::MemoryUsage), Some((radeon, 0x1e, [0; 4], 0, 8)));
    assert_eq!(asked(false, Request::GraphicsClock), Some((radeon, 0x22, [0; 4], 0, 4)));
    assert_eq!(asked(false, Request::MemoryClock), Some((radeon, 0x23, [0; 4], 300, 4)));
    assert_eq!(asked(false, Request::Busy), Some((radeon, 0x24, [0; 4], 0x8010, 4)));
}

#[test]
fn drivers_are_not_asked_what_they_do_not_understand() {
    for request in [Request::Open, Request::Done] {
        assert!(question(true, request, 0).is_none());
        assert!(question(false, request, 0).is_none());
    }
    for request in [
        Request::MemorySize,
        Request::MemoryUsage,
        Request::GraphicsClock,
        Request::MemoryClock,
        Request::Sensor(0),
        Request::Sensor(4),
    ] {
        assert!(question(true, request, 0).is_none());
    }
    for request in [Request::Sensor(1), Request::Sensor(2), Request::Family] {
        assert!(question(false, request, 0).is_none());
    }
}

#[test]
fn an_issue_says_what_is_missing() {
    for (driver, refused, busy, issue) in [
        ("amdgpu", false, None, false),
        ("amdgpu", true, None, true),
        ("radeon", false, Some(5), false),
        ("radeon", false, None, true),
        ("radeon", true, None, true),
    ] {
        let mut c = begin(driver, &nothing());
        c.reply(if refused {
            Reply::Refused("no".to_owned())
        } else {
            Reply::Opened
        });
        while c.request != Request::Done {
            let reply = match (c.request, busy) {
                (Request::Busy, Some(percent)) => Reply::Number(percent),
                _ => Reply::Nothing,
            };
            c.reply(reply);
        }
        assert_eq!(c.metrics.issue.is_some(), issue, "{driver} {refused}");
    }
}

#[test]
fn the_memory_clock_is_asked_for_behind_the_graphics_clock() {
    let mut c = begin("radeon", &everything());
    walk(
        &mut c,
        vec![Reply::Opened, Reply::Nothing, Reply::Nothing, Reply::Number(925)],
    );
    assert_eq!((c.request, c.clock), (Request::MemoryClock, 925));
    let mut c = begin("radeon", &everything());
    walk(
        &mut c,
        vec![Reply::Opened, Reply::Nothing, Reply::Nothing, Reply::Nothing],
    );
    assert_eq!((c.request, c.clock), (Request::MemoryClock, 0));
}

#[test]
fn sampling_goes_on_for_its_time_or_until_it_fails() {
    assert!(samples_on(0, &[]));
    assert!(samples_on(199, &[Some(0), Some(1)]));
    assert!(!samples_on(200, &[Some(0)]));
    assert!(!samples_on(200, &[]));
    assert!(!samples_on(8, &[Some(0), None]));
}

#[test]
fn only_named_files_are_read() {
    assert_eq!(
        sensor_files(),
        vec!["temp1_input", "freq1_input", "freq2_input", "power1_average", "power1_cap", "fan1_input"]
    );
    assert_eq!(
        attribute_files(&device("amdgpu")),
        vec![
            "mem_info_vram_total",
            "mem_info_vram_used",
            "mem_info_vis_vram_total",
            "mem_info_vis_vram_used",
            "mem_info_gtt_total",
            "mem_info_gtt_used",
            "gpu_busy_percent",
        ]
    );
    assert!(attribute_files(&device("radeon")).is_empty());
    assert!(named_connector("card0", "card0-DP-1"));
    assert!(!named_connector("card0", "card0") && !named_connector("card0", "card01-DP-1"));
}

#[test]
fn each_power_comes_of_its_own_file() {
    let mut files = everything();
    files.monitors[1].pop();
    files.monitors[1].push(file("power1_cap", Some("65000000\n")));
    assert_eq!((files.power(), files.power_cap()), (Some(12_340_000), Some(65_000_000)));
    let m = begin("radeon", &files).metrics;
    assert_eq!(m.power_watts.unwrap().hundredths, "12.34");
    assert_eq!(m.power_cap_watts.unwrap().whole, "65");
}

#[test]
fn other_files_do_not_matter() {
    let mut files = everything();
    files.monitors[0].push(file("temp2_input", Some("1")));
    files.attributes.insert(0, file("vendor", Some("2")));
    files.connectors.push(connector("card1-DP-1", Some("disabled")));
    let a = begin("amdgpu", &everything()).metrics;
    let b = begin("amdgpu", &files).metrics;
    assert_eq!(a.temperature_c, b.temperature_c);
    assert_eq!(a.memory_total, b.memory_total);
    assert_eq!(a.display_active, b.display_active);
}
