use radeon_smi::device::{Device, Metrics};
use radeon_smi::options::{parse, Interval, Options};
use radeon_smi::process::Process;
use radeon_smi::session::{
    help, pause, run, selected, timestamp, Action, Event, Session,
};

fn gpu(index: usize, bus: &str) -> Device {
    Device {
        index,
        bus_id: bus.to_owned(),
        name: format!("GPU {bus}"),
        driver: "amdgpu".to_owned(),
        sysfs: String::new(),
        node: String::new(),
        card: String::new(),
    }
}

fn two() -> Vec<Device> {
    vec![gpu(0, "0000:01:00.0"), gpu(1, "0000:0a:00.0")]
}

fn options(list: &[&str]) -> Options {
    let args: Vec<String> = list.iter().map(|s| (*s).to_owned()).collect();
    parse(&args).ok().unwrap()
}

fn begin(list: &[&str]) -> (Session, Action) {
    run(options(list), "0.1.0".to_owned())
}

fn indexes(id: &str) -> Option<Vec<usize>> {
    match selected(two(), &Some(id.to_owned())) {
        Ok(devices) => Some(devices.iter().map(|d| d.index).collect()),
        Err(message) => {
            assert_eq!(message, format!("GPU not found: {id}"));
            None
        }
    }
}

fn failure(action: Action) -> String {
    match action {
        Action::Fail(message) => message,
        _ => panic!("no failure"),
    }
}

fn printed(action: Action) -> Vec<String> {
    match action {
        Action::Print(lines) => lines,
        _ => panic!("nothing printed"),
    }
}

fn concluded(action: Action) -> Vec<String> {
    match action {
        Action::Conclude(lines) => lines,
        _ => panic!("no conclusion"),
    }
}

fn readings(n: usize) -> Event {
    let mut metrics: Vec<Metrics> = Vec::new();
    for _ in 0..n {
        metrics.push(Metrics::default());
    }
    Event::Collected(metrics, "now".to_owned())
}

#[test]
fn devices_are_chosen_by_index_or_bus_id() {
    assert_eq!(indexes("1"), Some(vec![1]));
    assert_eq!(indexes("0000:0a:00.0"), Some(vec![1]));
    assert_eq!(indexes("0000:0A:00.0"), Some(vec![1]));
    assert_eq!(indexes("00000000:0a:00.0"), Some(vec![1]));
    assert_eq!(indexes("00000000:01:00.0"), Some(vec![0]));
    assert_eq!(indexes("01"), None);
    assert_eq!(indexes("2"), None);
    assert_eq!(indexes(""), None);
    assert_eq!(selected(two(), &None).ok().unwrap().len(), 2);
    assert!(selected(Vec::new(), &None).ok().unwrap().is_empty());
}

#[test]
fn all_devices_of_one_name_are_chosen_in_their_order() {
    let devices = vec![gpu(0, "unknown"), gpu(1, "x"), gpu(2, "unknown")];
    let found = selected(devices, &Some("UNKNOWN".to_owned())).ok().unwrap();
    let found: Vec<usize> = found.iter().map(|d| d.index).collect();
    assert_eq!(found, vec![0, 2]);
}

#[test]
fn pauses_are_what_is_left_of_the_interval() {
    let t = |secs: u64, nanos: u32| Interval { secs, nanos };
    assert_eq!(pause(t(5, 0), t(1, 250_000_000)), t(3, 750_000_000));
    assert_eq!(pause(t(5, 500), t(5, 100)), t(0, 400));
    assert_eq!(pause(t(5, 0), t(5, 0)), t(0, 0));
    assert_eq!(pause(t(5, 0), t(9, 0)), t(0, 0));
    assert_eq!(pause(t(0, 1), t(0, 2)), t(0, 0));
}

#[test]
fn the_time_is_local_or_in_seconds() {
    assert_eq!(timestamp(5, Some("Thu Jan 01 00:00:05 1970".to_owned())), "Thu Jan 01 00:00:05 1970");
    assert_eq!(timestamp(1_700_000_000, None), "1700000000");
    assert_eq!(timestamp(-1, None), "-1");
}

#[test]
fn help_names_every_option() {
    let lines = help("0.1.0");
    assert_eq!(lines.len(), 12);
    assert_eq!(lines[0], "radeon-smi 0.1.0 \u{2014} read-only AMD GPU monitoring");
    assert_eq!(lines[8], "  -l, --loop[=SEC]         Repeat output (default: 5 seconds)");
}

#[test]
fn texts_about_the_program_need_no_device() {
    let (_, action) = begin(&["--help"]);
    assert_eq!(concluded(action), help("0.1.0"));
    let (_, action) = begin(&["--version"]);
    assert_eq!(concluded(action), vec!["radeon-smi 0.1.0"]);
    let (session, action) = begin(&["--help-query-gpu"]);
    assert_eq!(concluded(action).len(), 21);
    assert!(session.devices().is_none());
}

#[test]
fn a_list_is_printed_without_readings() {
    let (session, action) = begin(&["-L"]);
    assert!(matches!(action, Action::Discover));
    let (session, action) = session.advance(Event::Discovered(Ok(two())));
    assert_eq!(
        printed(action),
        vec![
            "GPU 0: GPU 0000:01:00.0 (PCI 00000000:01:00.0)",
            "GPU 1: GPU 0000:0a:00.0 (PCI 00000000:0A:00.0)",
        ]
    );
    let (_, action) = session.advance(Event::Printed(Ok(())));
    assert!(matches!(action, Action::Finish));
}

#[test]
fn a_table_asks_for_processes_and_readings() {
    let (session, _) = begin(&["-i", "1"]);
    let (session, action) = session.advance(Event::Discovered(Ok(two())));
    assert!(matches!(action, Action::FindProcesses));
    assert_eq!(session.devices().unwrap().len(), 1);
    assert_eq!(session.devices().unwrap()[0].index, 1);
    let user = Process {
        gpu: 1,
        pid: 77,
        name: "user".to_owned(),
        memory: None,
    };
    let (session, action) = session.advance(Event::Processes(vec![user]));
    assert!(matches!(action, Action::Collect));
    assert_eq!(session.devices().unwrap().len(), 1);
    let (session, action) = session.advance(readings(1));
    let lines = printed(action);
    assert_eq!(lines[0], "now");
    assert!(lines[2].starts_with("| RADEON-SMI 0.1.0 "));
    assert!(lines.iter().any(|line| line.contains("77") && line.contains("user")));
    let (_, action) = session.advance(Event::Printed(Ok(())));
    assert!(matches!(action, Action::Finish));
}

#[test]
fn details_ask_for_readings_only() {
    let (session, _) = begin(&["-q"]);
    let (session, action) = session.advance(Event::Discovered(Ok(two())));
    assert!(matches!(action, Action::Collect));
    let (_, action) = session.advance(readings(2));
    assert_eq!(printed(action).len(), 44);
}

#[test]
fn repeated_queries_print_their_header_once() {
    let (mut session, _) = begin(&["--query-gpu=index", "--format=csv", "-lms", "1500"]);
    for round in 0..3 {
        let (next, action) = session.advance(Event::Discovered(Ok(two())));
        assert!(matches!(action, Action::Collect));
        let (next, action) = next.advance(readings(2));
        if round == 0 {
            assert_eq!(printed(action), vec!["index", "0", "1"]);
        } else {
            assert_eq!(printed(action), vec!["0", "1"]);
        }
        let (next, action) = next.advance(Event::Printed(Ok(())));
        match action {
            Action::Wait(blank, interval) => {
                assert!(!blank);
                assert_eq!((interval.secs, interval.nanos), (1, 500_000_000));
            }
            _ => panic!("no pause"),
        }
        let (next, action) = next.advance(Event::Waited);
        assert!(matches!(action, Action::Discover));
        session = next;
    }
}

#[test]
fn repeated_lists_are_followed_by_an_empty_line() {
    let (session, _) = begin(&["-L", "-l"]);
    let (session, _) = session.advance(Event::Discovered(Ok(two())));
    let (_, action) = session.advance(Event::Printed(Ok(())));
    match action {
        Action::Wait(blank, interval) => {
            assert!(blank);
            assert_eq!(interval, Interval { secs: 5, nanos: 0 });
        }
        _ => panic!("no pause"),
    }
}

#[test]
fn every_failure_ends_the_run() {
    let (session, _) = begin(&[]);
    let (_, action) = session.advance(Event::Discovered(Err("No such file".to_owned())));
    assert_eq!(failure(action), "cannot discover DRM devices: No such file");
    let (session, _) = begin(&[]);
    let (_, action) = session.advance(Event::Discovered(Ok(Vec::new())));
    assert_eq!(failure(action), "no Radeon DRM GPUs found (radeon or amdgpu)");
    let (session, _) = begin(&["-i", "7"]);
    let (_, action) = session.advance(Event::Discovered(Ok(two())));
    assert_eq!(failure(action), "GPU not found: 7");
    let (session, _) = begin(&["-i", "7"]);
    let (_, action) = session.advance(Event::Discovered(Ok(Vec::new())));
    assert_eq!(failure(action), "GPU not found: 7");
    let (session, _) = begin(&["-L", "-l"]);
    let (session, _) = session.advance(Event::Discovered(Ok(two())));
    let (_, action) = session.advance(Event::Printed(Err("Broken pipe".to_owned())));
    assert_eq!(failure(action), "Broken pipe");
}
