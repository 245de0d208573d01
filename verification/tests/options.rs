use radeon_smi::options::{fields, parse, parse_interval, take_value, Interval, Mode, Options};

fn args(list: &[&str]) -> Vec<String> {
    list.iter().map(|s| (*s).to_owned()).collect()
}

fn accepted(list: &[&str]) -> Options {
    match parse(&args(list)) {
        Ok(options) => options,
        Err(message) => panic!("{message}"),
    }
}

fn refused(list: &[&str]) -> String {
    match parse(&args(list)) {
        Ok(_) => panic!("accepted"),
        Err(message) => message,
    }
}

fn seconds(secs: u64) -> Option<Interval> {
    Some(Interval { secs, nanos: 0 })
}

#[test]
fn query_needs_csv_format() {
    let args = vec!["--query-gpu=memory.used".to_owned()];
    assert!(parse(&args).is_err());
    let args = vec![
        "--query-gpu=memory.used".to_owned(),
        "--format=csv,noheader,nounits".to_owned(),
    ];
    let options = parse(&args).ok().unwrap();
    assert!(options.noheader && options.nounits);
    assert!(parse(&[
        "--query-gpu=driver_version".to_owned(),
        "--format=csv".to_owned()
    ])
    .is_err());
}

#[test]
fn invalid_intervals_fail() {
    assert!(parse_interval("0", false).is_err());
    assert!(parse_interval("abc", true).is_err());
}

#[test]
fn intervals_are_as_long_as_asked() {
    assert_eq!(parse_interval("5", false), Ok(Interval { secs: 5, nanos: 0 }));
    assert_eq!(
        parse_interval("1500", true),
        Ok(Interval {
            secs: 1,
            nanos: 500_000_000
        })
    );
    assert_eq!(
        parse_interval("18446744073709551615", true),
        Ok(Interval {
            secs: 18446744073709551,
            nanos: 615_000_000
        })
    );
    assert_eq!(
        parse_interval("0", true),
        Err("interval must be greater than zero".to_owned())
    );
    assert_eq!(
        parse_interval("-1", true),
        Err("invalid interval: -1".to_owned())
    );
}

#[test]
fn values_are_taken_from_the_next_argument() {
    let list = args(&["-i", "1"]);
    let mut index: usize = 0;
    assert_eq!(take_value(&list, &mut index, "-i"), Ok("1".to_owned()));
    assert_eq!(index, 1);
    assert_eq!(
        take_value(&list, &mut index, "-x"),
        Err("-x requires a value".to_owned())
    );
    assert_eq!(index, 2);
}

#[test]
fn an_empty_command_line_asks_for_the_table() {
    let options = accepted(&[]);
    assert_eq!(options.mode, Mode::Table);
    assert!(options.id.is_none() && options.fields.is_empty() && options.interval.is_none());
    assert!(!options.noheader && !options.nounits);
}

#[test]
fn flags_set_the_mode() {
    assert_eq!(accepted(&["-L"]).mode, Mode::List);
    assert_eq!(accepted(&["--list-gpus"]).mode, Mode::List);
    assert_eq!(accepted(&["-q"]).mode, Mode::Detail);
    assert_eq!(accepted(&["--query"]).mode, Mode::Detail);
    assert_eq!(accepted(&["--help-query-gpu"]).mode, Mode::HelpQuery);
    assert_eq!(accepted(&["-h"]).mode, Mode::Help);
    assert_eq!(accepted(&["--help"]).mode, Mode::Help);
    assert_eq!(accepted(&["--version"]).mode, Mode::Version);
    assert_eq!(accepted(&["-L", "-q"]).mode, Mode::Detail);
}

#[test]
fn flags_take_values_in_either_form() {
    assert_eq!(accepted(&["-i", "0"]).id, Some("0".to_owned()));
    assert_eq!(accepted(&["--id", "0000:01:00.0"]).id, Some("0000:01:00.0".to_owned()));
    assert_eq!(accepted(&["--id="]).id, Some(String::new()));
    assert_eq!(accepted(&["--id=1", "-i", "-L"]).id, Some("-L".to_owned()));
    let options = accepted(&["--query-gpu", "index,name", "--format", "csv"]);
    assert_eq!(options.mode, Mode::Query);
    assert_eq!(options.fields, vec!["index", "name"]);
    assert!(!options.noheader && !options.nounits);
}

#[test]
fn loops_take_seconds_or_milliseconds() {
    assert_eq!(accepted(&["-l"]).interval, seconds(5));
    assert_eq!(accepted(&["-l", "-L"]).interval, seconds(5));
    assert_eq!(accepted(&["-l", "-L"]).mode, Mode::List);
    assert_eq!(accepted(&["-l", "7"]).interval, seconds(7));
    assert_eq!(accepted(&["--loop", "7"]).interval, seconds(7));
    assert_eq!(accepted(&["--loop=8"]).interval, seconds(8));
    assert_eq!(accepted(&["-l9"]).interval, seconds(9));
    let half = Some(Interval {
        secs: 0,
        nanos: 500_000_000,
    });
    assert_eq!(accepted(&["-lms", "500"]).interval, half);
    assert_eq!(accepted(&["--loop-ms", "500"]).interval, half);
    assert_eq!(accepted(&["--loop-ms=500"]).interval, half);
    assert_eq!(accepted(&["-lms500"]).interval, half);
    assert_eq!(refused(&["-l", ""]), "invalid interval: ");
    assert_eq!(refused(&["-lx"]), "invalid interval: x");
    assert_eq!(refused(&["-l", "0"]), "interval must be greater than zero");
    assert_eq!(refused(&["-lms"]), "-lms requires a value");
    assert_eq!(refused(&["--loop-ms=0"]), "interval must be greater than zero");
}

#[test]
fn every_complaint_has_its_command_line() {
    assert_eq!(refused(&["-i"]), "-i requires a value");
    assert_eq!(refused(&["--id"]), "--id requires a value");
    assert_eq!(refused(&["--query-gpu"]), "--query-gpu requires a value");
    assert_eq!(refused(&["--format"]), "--format requires a value");
    assert_eq!(refused(&["--bogus"]), "unknown option: --bogus");
    assert_eq!(refused(&["card0"]), "unknown option: card0");
    assert_eq!(
        refused(&["--query-compute-apps"]),
        "per-process compute accounting is not available on legacy Radeon GPUs"
    );
    assert_eq!(
        refused(&["--query-compute-apps=pid"]),
        "per-process compute accounting is not available on legacy Radeon GPUs"
    );
    assert_eq!(
        refused(&["--query-compute-appsx"]),
        "unknown option: --query-compute-appsx"
    );
    assert_eq!(
        refused(&["--query-gpu=", "--format=csv"]),
        "unknown query field; use --help-query-gpu"
    );
    assert_eq!(
        refused(&["--query-gpu=name,bogus", "--format=csv"]),
        "unknown query field; use --help-query-gpu"
    );
    assert_eq!(refused(&["--query-gpu=name"]), "--query-gpu requires --format=csv");
    assert_eq!(
        refused(&["--query-gpu=name", "--format=json"]),
        "only --format=csv is supported"
    );
    assert_eq!(
        refused(&["--query-gpu=name", "--format=csv,bold"]),
        "unknown CSV format option: bold"
    );
    assert_eq!(refused(&["--format=csv"]), "--format requires --query-gpu");
    assert_eq!(
        refused(&["--query-gpu=name", "--format=csv", "-L"]),
        "--format requires --query-gpu"
    );
}

#[test]
fn csv_options_are_those_named() {
    for (format, noheader, nounits) in [
        ("csv", false, false),
        ("csv,noheader", true, false),
        ("csv,nounits", false, true),
        ("csv,nounits,noheader", true, true),
        ("csv,noheader,noheader", true, false),
    ] {
        let options = accepted(&["--query-gpu=name", "--format", format]);
        assert_eq!((options.noheader, options.nounits), (noheader, nounits), "{format}");
    }
}

#[test]
fn help_ends_the_command_line() {
    assert_eq!(accepted(&["-h", "--bogus"]).mode, Mode::Help);
    assert_eq!(accepted(&["--version", "-i"]).mode, Mode::Version);
    assert_eq!(accepted(&["--format=csv", "--help", "--query-gpu"]).mode, Mode::Help);
    assert_eq!(refused(&["--bogus", "-h"]), "unknown option: --bogus");
    assert_eq!(accepted(&["-i", "-h"]).mode, Mode::Table);
}

#[test]
fn every_field_can_be_queried() {
    let all = fields();
    assert_eq!(all.len(), 20);
    assert_eq!(all[0], "timestamp");
    assert_eq!(all[19], "ecc.errors.uncorrected.volatile.total");
    let list = format!("--query-gpu={}", all.join(","));
    assert_eq!(accepted(&[&list, "--format=csv"]).fields, all);
    for field in &all {
        let one = format!("--query-gpu={field}");
        assert_eq!(accepted(&[&one, "--format=csv"]).fields, vec![field.clone()]);
    }
}

#[test]
fn a_format_needs_a_query_wherever_it_stands() {
    for list in [
        ["-L", "--format=csv", "-q"],
        ["-i", "0", "--format=csv"],
        ["-l", "5", "--format=csv"],
        ["--format", "csv", "-L"],
    ] {
        assert_eq!(refused(&list), "--format requires --query-gpu");
    }
    assert_eq!(accepted(&["-i", "--format=csv"]).id, Some("--format=csv".to_owned()));
    assert_eq!(accepted(&["-L", "--format=csv", "-h"]).mode, Mode::Help);
    assert_eq!(refused(&["--query-gpu=name", "-i", "--format=csv"]), "--query-gpu requires --format=csv");
}

#[test]
fn joined_values_are_read_alike() {
    for (flag, value, both) in [
        ("-i", "x", "--id=x"),
        ("--id", "-L", "--id=-L"),
        ("--loop", "7", "--loop=7"),
        ("-l", "7", "-l7"),
        ("-l", "0", "-l0"),
        ("-lms", "x", "-lmsx"),
        ("--loop-ms", "70", "--loop-ms=70"),
        ("--format", "csv", "--format=csv"),
        ("--query-gpu", "name,bogus", "--query-gpu=name,bogus"),
    ] {
        let apart = parse(&args(&["-L", flag, value, "-q"]));
        let joined = parse(&args(&["-L", both, "-q"]));
        match (apart, joined) {
            (Ok(a), Ok(b)) => {
                assert_eq!((a.mode, a.id, a.fields), (b.mode, b.id, b.fields), "{both}");
                assert_eq!(a.interval, b.interval, "{both}");
            }
            (Err(a), Err(b)) => assert_eq!(a, b),
            _ => panic!("{both}"),
        }
    }
    assert_eq!(refused(&["--loop", "x"]), "unknown option: x");
    assert_eq!(refused(&["--loop=x"]), "invalid interval: x");
}
