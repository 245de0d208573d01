//! The command line: what it asks for, and which command lines are refused.
use crate::number::{
    decimal_of, decimal_reads_back, is_only_digits, number, only_digits, parse_number,
};
use crate::text::{
    has_prefix, is_digit, joined, joined_pair, joined_pieces_are_the_pieces, lemma_pieces_not_empty,
    optional, pieces, same, split, starts_with, strip_prefix, texts, told, without_prefix,
};
use vstd::prelude::*;

verus! {

/// What is to be shown.
#[derive(Clone, Copy, PartialEq, Eq, Structural, Debug)]
pub enum Mode {
    Table,
    List,
    Detail,
    Query,
    HelpQuery,
    Help,
    Version,
}

/// A time between two reports.
#[derive(Clone, Copy, PartialEq, Eq, Structural, Debug)]
pub struct Interval {
    pub secs: u64,
    pub nanos: u32,
}

/// A time in nanoseconds.
pub open spec fn nanoseconds(t: Interval) -> nat {
    (t.secs * 1_000_000_000 + t.nanos) as nat
}

/// A time is written with less than a second in its nanoseconds.
pub open spec fn is_normal(t: Interval) -> bool {
    t.nanos < 1_000_000_000
}

/// What a command line asks for.
pub struct Options {
    pub mode: Mode,
    pub id: Option<String>,
    pub fields: Vec<String>,
    pub noheader: bool,
    pub nounits: bool,
    pub interval: Option<Interval>,
}

/// What `Options` say, their texts as character sequences.
pub struct OptionsView {
    pub mode: Mode,
    pub id: Option<Seq<char>>,
    pub fields: Seq<Seq<char>>,
    pub noheader: bool,
    pub nounits: bool,
    pub interval: Option<Interval>,
}

impl View for Options {
    type V = OptionsView;

    open spec fn view(&self) -> OptionsView {
        OptionsView {
            mode: self.mode,
            id: optional(self.id),
            fields: texts(self.fields@),
            noheader: self.noheader,
            nounits: self.nounits,
            interval: self.interval,
        }
    }
}

// ---------------------------------------------------------------------------
// Query fields
// ---------------------------------------------------------------------------
/// The fields that a query can ask for.
pub open spec fn field_names() -> Seq<Seq<char>> {
    seq![
        "timestamp"@,
        "index"@,
        "name"@,
        "pci.bus_id"@,
        "display_active"@,
        "memory.total"@,
        "memory.used"@,
        "memory.free"@,
        "memory.visible.total"@,
        "memory.visible.used"@,
        "memory.gtt.total"@,
        "memory.gtt.used"@,
        "utilization.gpu"@,
        "temperature.gpu"@,
        "clocks.current.graphics"@,
        "clocks.current.memory"@,
        "power.draw"@,
        "power.limit"@,
        "fan.speed"@,
        "ecc.errors.uncorrected.volatile.total"@,
    ]
}

/// The fields that a query can ask for, in the order in which they are shown.
pub fn fields() -> (r: Vec<String>)
    ensures
        texts(r@) == field_names(),
{
    let r: Vec<String> = vec![
        "timestamp".to_owned(),
        "index".to_owned(),
        "name".to_owned(),
        "pci.bus_id".to_owned(),
        "display_active".to_owned(),
        "memory.total".to_owned(),
        "memory.used".to_owned(),
        "memory.free".to_owned(),
        "memory.visible.total".to_owned(),
        "memory.visible.used".to_owned(),
        "memory.gtt.total".to_owned(),
        "memory.gtt.used".to_owned(),
        "utilization.gpu".to_owned(),
        "temperature.gpu".to_owned(),
        "clocks.current.graphics".to_owned(),
        "clocks.current.memory".to_owned(),
        "power.draw".to_owned(),
        "power.limit".to_owned(),
        "fan.speed".to_owned(),
        "ecc.errors.uncorrected.volatile.total".to_owned(),
    ];
    assert(texts(r@) =~= field_names());
    r
}

/// Every one of `asked` is a field.
pub open spec fn all_known(asked: Seq<Seq<char>>) -> bool {
    forall|i: int| 0 <= i < asked.len() ==> field_names().contains(#[trigger] asked[i])
}

fn is_known(field: &str) -> (r: bool)
    ensures
        r == field_names().contains(field@),
{
    let all: Vec<String> = fields();
    for i in 0..all.len()
        invariant
            texts(all@) == field_names(),
            forall|j: int| 0 <= j < i ==> field_names()[j] != field@,
    {
        assert(texts(all@)[i as int] == all@[i as int]@);
        if same(all[i].as_str(), field) {
            return true;
        }
    }
    false
}

fn are_known(asked: &Vec<String>) -> (r: bool)
    ensures
        r == all_known(texts(asked@)),
{
    for i in 0..asked.len()
        invariant
            forall|j: int|
                0 <= j < i ==> field_names().contains(#[trigger] texts(asked@)[j]),
    {
        assert(texts(asked@)[i as int] == asked@[i as int]@);
        if !is_known(asked[i].as_str()) {
            return false;
        }
    }
    true
}

// ---------------------------------------------------------------------------
// Values
// ---------------------------------------------------------------------------
/// The time that `value` writes, as a number of seconds or of milliseconds; or the complaint.
pub open spec fn interval_of(value: Seq<char>, millis: bool) -> Result<Interval, Seq<char>> {
    match number(value, 10, u64::MAX as nat) {
        None => Err("invalid interval: "@ + value),
        Some(amount) => if amount == 0 {
            Err("interval must be greater than zero"@)
        } else if millis {
            Ok(
                Interval {
                    secs: (amount / 1000) as u64,
                    nanos: (amount % 1000 * 1_000_000) as u32,
                },
            )
        } else {
            Ok(Interval { secs: amount as u64, nanos: 0 })
        },
    }
}

pub fn parse_interval(value: &str, millis: bool) -> (r: Result<Interval, String>)
    ensures
        told(r) == interval_of(value@, millis),
{
    match parse_number(value, 10, u64::MAX) {
        None => Err(joined_pair("invalid interval: ", value)),
        Some(amount) => {
            if amount == 0 {
                Err("interval must be greater than zero".to_owned())
            } else if millis {
                Ok(Interval { secs: amount / 1000, nanos: (amount % 1000 * 1_000_000) as u32 })
            } else {
                Ok(Interval { secs: amount, nanos: 0 })
            }
        },
    }
}

/// The argument at `index`, as the value of the flag before it; or the complaint.
pub open spec fn value_at(
    args: Seq<Seq<char>>,
    index: int,
    flag: Seq<char>,
) -> Result<Seq<char>, Seq<char>> {
    if 0 <= index < args.len() {
        Ok(args[index])
    } else {
        Err(flag + " requires a value"@)
    }
}

/// A result with the characters of its text or message.
pub open spec fn read(r: Result<String, String>) -> Result<Seq<char>, Seq<char>> {
    match r {
        Ok(v) => Ok(v@),
        Err(message) => Err(message@),
    }
}

/// Steps to the argument behind `index` and takes it as the value of `flag`.
pub fn take_value(args: &[String], index: &mut usize, flag: &str) -> (r: Result<String, String>)
    requires
        *old(index) < usize::MAX,
    ensures
        *final(index) == *old(index) + 1,
        read(r) == value_at(texts(args@), *old(index) + 1, flag@),
{
    *index += 1;
    if *index < args.len() {
        Ok(args[*index].clone())
    } else {
        Err(joined_pair(flag, " requires a value"))
    }
}

// ---------------------------------------------------------------------------
// Flags
// ---------------------------------------------------------------------------
/// What an argument means.
#[derive(Clone, Copy, PartialEq, Eq, Structural, Debug)]
pub enum Flag {
    List,
    Detail,
    HelpQuery,
    Id,
    QueryGpu,
    Format,
    Loop,
    LoopMs,
    ComputeApps,
    Help,
    Version,
    Unknown,
}

/// `arg` is `prefix` with something behind it.
pub open spec fn extends(arg: Seq<char>, prefix: Seq<char>) -> bool {
    has_prefix(arg, prefix) && arg.len() > prefix.len()
}

/// The flag that an argument is, and the value that it carries itself.
pub open spec fn flag_of(arg: Seq<char>) -> (Flag, Option<Seq<char>>) {
    if arg == "-L"@ || arg == "--list-gpus"@ {
        (Flag::List, None)
    } else if arg == "-q"@ || arg == "--query"@ {
        (Flag::Detail, None)
    } else if arg == "--help-query-gpu"@ {
        (Flag::HelpQuery, None)
    } else if arg == "-i"@ || arg == "--id"@ {
        (Flag::Id, None)
    } else if arg == "--query-gpu"@ {
        (Flag::QueryGpu, None)
    } else if arg == "--format"@ {
        (Flag::Format, None)
    } else if arg == "-l"@ || arg == "--loop"@ {
        (Flag::Loop, None)
    } else if arg == "-lms"@ || arg == "--loop-ms"@ {
        (Flag::LoopMs, None)
    } else if has_prefix(arg, "--id="@) {
        (Flag::Id, without_prefix(arg, "--id="@))
    } else if has_prefix(arg, "--query-gpu="@) {
        (Flag::QueryGpu, without_prefix(arg, "--query-gpu="@))
    } else if has_prefix(arg, "--format="@) {
        (Flag::Format, without_prefix(arg, "--format="@))
    } else if has_prefix(arg, "--loop-ms="@) {
        (Flag::LoopMs, without_prefix(arg, "--loop-ms="@))
    } else if has_prefix(arg, "--loop="@) {
        (Flag::Loop, without_prefix(arg, "--loop="@))
    } else if extends(arg, "-lms"@) {
        (Flag::LoopMs, without_prefix(arg, "-lms"@))
    } else if extends(arg, "-l"@) {
        (Flag::Loop, without_prefix(arg, "-l"@))
    } else if arg == "--query-compute-apps"@ || has_prefix(arg, "--query-compute-apps="@) {
        (Flag::ComputeApps, None)
    } else if arg == "-h"@ || arg == "--help"@ {
        (Flag::Help, None)
    } else if arg == "--version"@ {
        (Flag::Version, None)
    } else {
        (Flag::Unknown, None)
    }
}

/// The same pair over character sequences.
pub open spec fn flag_view(r: (Flag, Option<String>)) -> (Flag, Option<Seq<char>>) {
    (r.0, optional(r.1))
}

fn is_longer(arg: &str, prefix: &str) -> (r: bool)
    ensures
        r == extends(arg@, prefix@),
{
    starts_with(arg, prefix) && arg.unicode_len() > prefix.unicode_len()
}

/// The flags that stand alone, and those whose value is the next argument.
fn bare_flag(arg: &str) -> (r: Option<Flag>)
    ensures
        match r {
            Some(flag) => flag_of(arg@) == (flag, None::<Seq<char>>),
            None => arg@ != "-L"@ && arg@ != "--list-gpus"@ && arg@ != "-q"@ && arg@ != "--query"@
                && arg@ != "--help-query-gpu"@ && arg@ != "-i"@ && arg@ != "--id"@ && arg@
                != "--query-gpu"@ && arg@ != "--format"@ && arg@ != "-l"@ && arg@ != "--loop"@
                && arg@ != "-lms"@ && arg@ != "--loop-ms"@,
        },
{
    if same(arg, "-L") || same(arg, "--list-gpus") {
        Some(Flag::List)
    } else if same(arg, "-q") || same(arg, "--query") {
        Some(Flag::Detail)
    } else if same(arg, "--help-query-gpu") {
        Some(Flag::HelpQuery)
    } else if same(arg, "-i") || same(arg, "--id") {
        Some(Flag::Id)
    } else if same(arg, "--query-gpu") {
        Some(Flag::QueryGpu)
    } else if same(arg, "--format") {
        Some(Flag::Format)
    } else if same(arg, "-l") || same(arg, "--loop") {
        Some(Flag::Loop)
    } else if same(arg, "-lms") || same(arg, "--loop-ms") {
        Some(Flag::LoopMs)
    } else {
        None
    }
}

fn classify(arg: &str) -> (r: (Flag, Option<String>))
    ensures
        flag_view(r) == flag_of(arg@),
{
    if let Some(flag) = bare_flag(arg) {
        (flag, None)
    } else if starts_with(arg, "--id=") {
        (Flag::Id, strip_prefix(arg, "--id="))
    } else if starts_with(arg, "--query-gpu=") {
        (Flag::QueryGpu, strip_prefix(arg, "--query-gpu="))
    } else if starts_with(arg, "--format=") {
        (Flag::Format, strip_prefix(arg, "--format="))
    } else if starts_with(arg, "--loop-ms=") {
        (Flag::LoopMs, strip_prefix(arg, "--loop-ms="))
    } else if starts_with(arg, "--loop=") {
        (Flag::Loop, strip_prefix(arg, "--loop="))
    } else if is_longer(arg, "-lms") {
        (Flag::LoopMs, strip_prefix(arg, "-lms"))
    } else if is_longer(arg, "-l") {
        (Flag::Loop, strip_prefix(arg, "-l"))
    } else if same(arg, "--query-compute-apps") || starts_with(arg, "--query-compute-apps=") {
        (Flag::ComputeApps, None)
    } else if same(arg, "-h") || same(arg, "--help") {
        (Flag::Help, None)
    } else if same(arg, "--version") {
        (Flag::Version, None)
    } else {
        (Flag::Unknown, None)
    }
}

// ---------------------------------------------------------------------------
// The whole command line
// ---------------------------------------------------------------------------
/// What the arguments so far have asked for.
pub struct Draft {
    pub options: OptionsView,
    /// The last value of `--format`.
    pub format: Option<Seq<char>>,
}

/// What an empty command line asks for.
pub open spec fn blank() -> Draft {
    Draft {
        options: OptionsView {
            mode: Mode::Table,
            id: None,
            fields: Seq::empty(),
            noheader: false,
            nounits: false,
            interval: None,
        },
        format: None,
    }
}

pub open spec fn with_mode(draft: Draft, mode: Mode) -> Draft {
    Draft { options: OptionsView { mode, ..draft.options }, ..draft }
}

pub open spec fn with_interval(
    draft: Draft,
    interval: Result<Interval, Seq<char>>,
) -> Result<Draft, Seq<char>> {
    match interval {
        Ok(interval) => Ok(
            Draft { options: OptionsView { interval: Some(interval), ..draft.options }, ..draft },
        ),
        Err(message) => Err(message),
    }
}

/// What is asked for once `flag` has been given `value`.
pub open spec fn with_value(draft: Draft, flag: Flag, value: Seq<char>) -> Result<
    Draft,
    Seq<char>,
> {
    match flag {
        Flag::Id => Ok(Draft { options: OptionsView { id: Some(value), ..draft.options }, ..draft }),
        Flag::QueryGpu => Ok(
            Draft {
                options: OptionsView {
                    mode: Mode::Query,
                    fields: pieces(value, ','),
                    ..draft.options
                },
                ..draft
            },
        ),
        Flag::Format => Ok(Draft { format: Some(value), ..draft }),
        Flag::Loop => with_interval(draft, interval_of(value, false)),
        _ => with_interval(draft, interval_of(value, true)),
    }
}

/// Whether the flag at `i` does without a value: a loop whose next argument is no number.
pub open spec fn goes_without(args: Seq<Seq<char>>, i: int, flag: Flag) -> bool {
    flag == Flag::Loop && !(i + 1 < args.len() && only_digits(args[i + 1]))
}

/// The value of the flag at `i`: what it carries itself, else the next argument. A loop that goes
/// without waits for 5 seconds.
pub open spec fn value_of(
    args: Seq<Seq<char>>,
    i: int,
    flag: Flag,
    carried: Option<Seq<char>>,
) -> Result<Seq<char>, Seq<char>> {
    match carried {
        Some(value) => Ok(value),
        None => if goes_without(args, i, flag) {
            Ok("5"@)
        } else {
            value_at(args, i + 1, args[i])
        },
    }
}

/// The index behind the flag at `i` and its value.
pub open spec fn index_behind(
    args: Seq<Seq<char>>,
    i: int,
    flag: Flag,
    carried: Option<Seq<char>>,
) -> int {
    if carried is Some || goes_without(args, i, flag) {
        i + 1
    } else {
        i + 2
    }
}

/// What the options of `--format` behind `csv`, from the index `i` on, make of `options`.
pub open spec fn with_csv_options(
    options: OptionsView,
    parts: Seq<Seq<char>>,
    i: int,
) -> Result<OptionsView, Seq<char>>
    decreases parts.len() - i,
{
    if i >= parts.len() {
        Ok(options)
    } else if parts[i] == "noheader"@ {
        with_csv_options(OptionsView { noheader: true, ..options }, parts, i + 1)
    } else if parts[i] == "nounits"@ {
        with_csv_options(OptionsView { nounits: true, ..options }, parts, i + 1)
    } else {
        Err("unknown CSV format option: "@ + parts[i])
    }
}

/// What is asked for in the end: a query needs known fields and a CSV format, and nothing else may
/// have a format.
pub open spec fn completed(draft: Draft) -> Result<OptionsView, Seq<char>> {
    if draft.options.mode == Mode::Query {
        if draft.options.fields.len() == 0 || !all_known(draft.options.fields) {
            Err("unknown query field; use --help-query-gpu"@)
        } else {
            match draft.format {
                None => Err("--query-gpu requires --format=csv"@),
                Some(format) => {
                    let parts = pieces(format, ',');
                    if parts[0] != "csv"@ {
                        Err("only --format=csv is supported"@)
                    } else {
                        with_csv_options(draft.options, parts, 1)
                    }
                },
            }
        }
    } else if draft.format is Some {
        Err("--format requires --query-gpu"@)
    } else {
        Ok(draft.options)
    }
}

/// What the arguments from `i` on make of `draft`. Help and version end the command line at once.
pub open spec fn parsed_from(args: Seq<Seq<char>>, i: int, draft: Draft) -> Result<
    OptionsView,
    Seq<char>,
>
    decreases args.len() - i,
{
    if i >= args.len() {
        completed(draft)
    } else {
        let (flag, carried) = flag_of(args[i]);
        match flag {
            Flag::List => parsed_from(args, i + 1, with_mode(draft, Mode::List)),
            Flag::Detail => parsed_from(args, i + 1, with_mode(draft, Mode::Detail)),
            Flag::HelpQuery => parsed_from(args, i + 1, with_mode(draft, Mode::HelpQuery)),
            Flag::ComputeApps => Err(
                "per-process compute accounting is not available on legacy Radeon GPUs"@,
            ),
            Flag::Help => Ok(with_mode(draft, Mode::Help).options),
            Flag::Version => Ok(with_mode(draft, Mode::Version).options),
            Flag::Unknown => Err("unknown option: "@ + args[i]),
            _ => match value_of(args, i, flag, carried) {
                Err(message) => Err(message),
                Ok(value) => match with_value(draft, flag, value) {
                    Err(message) => Err(message),
                    Ok(next) => parsed_from(args, index_behind(args, i, flag, carried), next),
                },
            },
        }
    }
}

/// What a command line asks for, or the complaint.
pub open spec fn parsed(args: Seq<Seq<char>>) -> Result<OptionsView, Seq<char>> {
    parsed_from(args, 0, blank())
}

/// A result with the views of its options or message.
pub open spec fn options_read(r: Result<Options, String>) -> Result<OptionsView, Seq<char>> {
    match r {
        Ok(options) => Ok(options@),
        Err(message) => Err(message@),
    }
}

/// The value of the flag at `i`; moves `i` to the value if it is an argument of its own.
fn take_flag_value(args: &[String], i: &mut usize, flag: Flag, carried: Option<String>) -> (r:
    Result<String, String>)
    requires
        *old(i) < args@.len(),
    ensures
        *final(i) + 1 == index_behind(texts(args@), *old(i) as int, flag, optional(carried)),
        read(r) == value_of(texts(args@), *old(i) as int, flag, optional(carried)),
{
    let at: usize = *i;
    match carried {
        Some(value) => Ok(value),
        None => {
            let n: usize = args.len();
            let next_is_number: bool = at + 1 < n && is_only_digits(
                args[at + 1].as_str(),
            );
            assert(at + 1 < args@.len() ==> texts(args@)[at + 1] == args@[at + 1]@);
            if flag == Flag::Loop && !next_is_number {
                Ok("5".to_owned())
            } else {
                take_value(args, i, args[at].as_str())
            }
        },
    }
}

/// Applies the parts of a CSV format behind the first.
fn apply_csv_options(asked: Options, parts: &Vec<String>) -> (r: Result<Options, String>)
    requires
        parts@.len() > 0,
    ensures
        options_read(r) == with_csv_options(asked@, texts(parts@), 1),
{
    let mut options: Options = asked;
    let ghost all = texts(parts@);
    let ghost whole = with_csv_options(asked@, all, 1);
    for i in 1..parts.len()
        invariant
            all == texts(parts@),
            parts@.len() > 0,
            whole == with_csv_options(asked@, all, 1),
            whole == with_csv_options(options@, all, i as int),
    {
        assert(all[i as int] == parts@[i as int]@);
        if same(parts[i].as_str(), "noheader") {
            options.noheader = true;
        } else if same(parts[i].as_str(), "nounits") {
            options.nounits = true;
        } else {
            return Err(joined_pair("unknown CSV format option: ", parts[i].as_str()));
        }
    }
    Ok(options)
}

/// Completes the options by the `--format` that was given.
fn complete(options: Options, format: Option<String>) -> (r: Result<Options, String>)
    ensures
        options_read(r) == completed(Draft { options: options@, format: optional(format) }),
{
    if options.mode == Mode::Query {
        if options.fields.len() == 0 || !are_known(&options.fields) {
            return Err("unknown query field; use --help-query-gpu".to_owned());
        }
        match format {
            Some(format) => {
                let parts: Vec<String> = split(format.as_str(), ',');
                proof {
                    lemma_pieces_not_empty(format@, ',');
                    assert(texts(parts@).len() == parts@.len());
                }
                if same(parts[0].as_str(), "csv") {
                    apply_csv_options(options, &parts)
                } else {
                    Err("only --format=csv is supported".to_owned())
                }
            },
            None => Err("--query-gpu requires --format=csv".to_owned()),
        }
    } else if format.is_some() {
        Err("--format requires --query-gpu".to_owned())
    } else {
        Ok(options)
    }
}

/// Reads a command line, without the name of the program.
pub fn parse(args: &[String]) -> (r: Result<Options, String>)
    ensures
        options_read(r) == parsed(texts(args@)),
{
    let mut options: Options = Options {
        mode: Mode::Table,
        id: None,
        fields: Vec::new(),
        noheader: false,
        nounits: false,
        interval: None,
    };
    let mut format: Option<String> = None;
    let mut i: usize = 0;
    let ghost all = texts(args@);
    assert(options@.fields =~= Seq::empty());
    while i < args.len()
        invariant
            all == texts(args@),
            i <= args@.len() + 1,
            parsed(all) == parsed_from(
                all,
                i as int,
                Draft { options: options@, format: optional(format) },
            ),
        decreases args@.len() - i,
    {
        let ghost start = i as int;
        let (flag, carried) = classify(args[i].as_str());
        assert(all[i as int] == args@[i as int]@);
        match flag {
            Flag::List => {
                options.mode = Mode::List;
            },
            Flag::Detail => {
                options.mode = Mode::Detail;
            },
            Flag::HelpQuery => {
                options.mode = Mode::HelpQuery;
            },
            Flag::ComputeApps => {
                return Err(
                    "per-process compute accounting is not available on legacy Radeon GPUs".to_owned(),
                );
            },
            Flag::Help => {
                options.mode = Mode::Help;
                return Ok(options);
            },
            Flag::Version => {
                options.mode = Mode::Version;
                return Ok(options);
            },
            Flag::Unknown => {
                return Err(joined_pair("unknown option: ", args[i].as_str()));
            },
            _ => {
                let value: String = match take_flag_value(args, &mut i, flag, carried) {
                    Ok(value) => value,
                    Err(message) => {
                        return Err(message);
                    },
                };
                match flag {
                    Flag::Id => {
                        options.id = Some(value);
                    },
                    Flag::QueryGpu => {
                        options.mode = Mode::Query;
                        options.fields = split(value.as_str(), ',');
                    },
                    Flag::Format => {
                        format = Some(value);
                    },
                    _ => match parse_interval(value.as_str(), flag != Flag::Loop) {
                        Ok(interval) => {
                            options.interval = Some(interval);
                        },
                        Err(message) => {
                            return Err(message);
                        },
                    },
                }
            },
        }
        i += 1;
    }
    complete(options, format)
}

// ---------------------------------------------------------------------------
// Laws
// ---------------------------------------------------------------------------
/// What holds of a command line that has been read so far: only its end sets the CSV options, its
/// time is a positive one, and neither help nor version has been asked for.
spec fn is_open_draft(draft: Draft) -> bool {
    &&& !draft.options.noheader
    &&& !draft.options.nounits
    &&& draft.options.interval matches Some(t) ==> is_normal(t) && nanoseconds(t) > 0
    &&& draft.options.mode != Mode::Help
    &&& draft.options.mode != Mode::Version
}

/// A time that is accepted is as long as was asked, and written normally. It is refused exactly if
/// no positive number is written.
pub proof fn interval_is_as_long_as_asked(value: Seq<char>, millis: bool)
    ensures
        match number(value, 10, u64::MAX as nat) {
            Some(amount) => if amount > 0 {
                interval_of(value, millis) matches Ok(t) && is_normal(t) && nanoseconds(t)
                    == amount * (if millis {
                    1_000_000int
                } else {
                    1_000_000_000int
                })
            } else {
                interval_of(value, millis) is Err
            },
            None => interval_of(value, millis) is Err,
        },
{
}

/// Every positive number of 64 bits, written in decimal, is accepted as a time.
pub proof fn every_interval_can_be_asked_for(amount: nat, millis: bool)
    requires
        0 < amount <= u64::MAX,
    ensures
        interval_of(decimal_of(amount), millis) matches Ok(t) && nanoseconds(t) == amount * (
        if millis {
            1_000_000int
        } else {
            1_000_000_000int
        }),
{
    decimal_reads_back(amount, u64::MAX as nat);
    interval_is_as_long_as_asked(decimal_of(amount), millis);
}

/// The parts of a CSV format from `i` on are accepted exactly if each is one of the two options,
/// and each option is then set exactly if it was before or is among them; nothing else changes.
pub proof fn csv_options_are_those_named(options: OptionsView, parts: Seq<Seq<char>>, i: int)
    requires
        0 <= i <= parts.len(),
    ensures
        with_csv_options(options, parts, i) is Ok <==> forall|k: int|
            i <= k < parts.len() ==> #[trigger] parts[k] == "noheader"@ || parts[k] == "nounits"@,
        with_csv_options(options, parts, i) matches Ok(r) ==> r == (OptionsView {
            noheader: options.noheader || exists|k: int|
                i <= k < parts.len() && #[trigger] parts[k] == "noheader"@,
            nounits: options.nounits || exists|k: int|
                i <= k < parts.len() && #[trigger] parts[k] == "nounits"@,
            ..options
        }),
    decreases parts.len() - i,
{
    reveal_strlit("noheader");
    reveal_strlit("nounits");
    assert("noheader"@.len() != "nounits"@.len());
    if i < parts.len() {
        if parts[i] == "noheader"@ {
            csv_options_are_those_named(OptionsView { noheader: true, ..options }, parts, i + 1);
        } else if parts[i] == "nounits"@ {
            csv_options_are_those_named(OptionsView { nounits: true, ..options }, parts, i + 1);
        }
    }
}

proof fn lemma_value_keeps_draft_open(draft: Draft, flag: Flag, value: Seq<char>)
    requires
        is_open_draft(draft),
    ensures
        with_value(draft, flag, value) matches Ok(next) ==> is_open_draft(next),
{
    interval_is_as_long_as_asked(value, true);
    interval_is_as_long_as_asked(value, false);
}

proof fn lemma_accepted(args: Seq<Seq<char>>, i: int, draft: Draft)
    requires
        is_open_draft(draft),
        0 <= i,
    ensures
        parsed_from(args, i, draft) matches Ok(options) ==> {
            &&& options.mode == Mode::Query ==> options.fields.len() > 0 && all_known(
                options.fields,
            )
            &&& options.noheader || options.nounits ==> options.mode == Mode::Query
            &&& options.interval matches Some(t) ==> is_normal(t) && nanoseconds(t) > 0
        },
    decreases args.len() - i,
{
    if i >= args.len() {
        if let Some(format) = draft.format {
            lemma_pieces_not_empty(format, ',');
            csv_options_are_those_named(draft.options, pieces(format, ','), 1);
        }
    } else {
        let (flag, carried) = flag_of(args[i]);
        match flag {
            Flag::List => lemma_accepted(args, i + 1, with_mode(draft, Mode::List)),
            Flag::Detail => lemma_accepted(args, i + 1, with_mode(draft, Mode::Detail)),
            Flag::HelpQuery => lemma_accepted(args, i + 1, with_mode(draft, Mode::HelpQuery)),
            Flag::ComputeApps | Flag::Help | Flag::Version | Flag::Unknown => {},
            _ => {
                if let Ok(value) = value_of(args, i, flag, carried) {
                    lemma_value_keeps_draft_open(draft, flag, value);
                    if let Ok(next) = with_value(draft, flag, value) {
                        lemma_accepted(args, index_behind(args, i, flag, carried), next);
                    }
                }
            },
        }
    }
}

/// What a command line that is accepted asks for makes sense: a query names fields, and only known
/// ones; the CSV options come with a query only; the time between two reports is positive and
/// written normally.
pub proof fn accepted_command_lines_make_sense(args: Seq<Seq<char>>)
    ensures
        parsed(args) matches Ok(options) ==> {
            &&& options.mode == Mode::Query ==> options.fields.len() > 0 && all_known(
                options.fields,
            )
            &&& options.noheader || options.nounits ==> options.mode == Mode::Query
            &&& options.interval matches Some(t) ==> is_normal(t) && nanoseconds(t) > 0
        },
{
    lemma_accepted(args, 0, blank());
}

/// The index at which reading goes on behind the argument at `i`: behind its value if it has one;
/// nothing is read behind an argument that ends the command line.
pub open spec fn index_after(args: Seq<Seq<char>>, i: int) -> int {
    let (flag, carried) = flag_of(args[i]);
    match flag {
        Flag::List | Flag::Detail | Flag::HelpQuery => i + 1,
        Flag::ComputeApps | Flag::Help | Flag::Version | Flag::Unknown => args.len() as int,
        _ => index_behind(args, i, flag, carried),
    }
}

/// The argument at `k` is read as a flag, not as the value of another, if reading goes on at `i`.
pub open spec fn is_read_as_flag(args: Seq<Seq<char>>, i: int, k: int) -> bool
    decreases args.len() + 1 - i,
{
    if i >= args.len() {
        false
    } else {
        i == k || is_read_as_flag(args, index_after(args, i), k)
    }
}

proof fn lemma_query_needs_format(args: Seq<Seq<char>>, i: int, draft: Draft)
    requires
        0 <= i,
        draft.format is None,
        forall|k: int| #[trigger]
            is_read_as_flag(args, i, k) ==> flag_of(args[k]).0 != Flag::Format,
    ensures
        parsed_from(args, i, draft) matches Ok(options) ==> options.mode != Mode::Query,
    decreases args.len() - i,
{
    if i < args.len() {
        let (flag, carried) = flag_of(args[i]);
        let next = index_after(args, i);
        assert(is_read_as_flag(args, i, i));
        assert forall|k: int| #[trigger] is_read_as_flag(args, next, k) implies flag_of(args[k]).0
            != Flag::Format by {
            assert(is_read_as_flag(args, i, k));
        }
        match flag {
            Flag::List => lemma_query_needs_format(args, next, with_mode(draft, Mode::List)),
            Flag::Detail => lemma_query_needs_format(args, next, with_mode(draft, Mode::Detail)),
            Flag::HelpQuery => lemma_query_needs_format(
                args,
                next,
                with_mode(draft, Mode::HelpQuery),
            ),
            Flag::ComputeApps | Flag::Help | Flag::Version | Flag::Unknown => {},
            _ => {
                if let Ok(value) = value_of(args, i, flag, carried) {
                    if let Ok(given) = with_value(draft, flag, value) {
                        lemma_query_needs_format(args, next, given);
                    }
                }
            },
        }
    }
}

/// A query is never accepted without a `--format` that is read as a flag.
pub proof fn query_needs_format(args: Seq<Seq<char>>)
    requires
        forall|k: int| #[trigger]
            is_read_as_flag(args, 0, k) ==> flag_of(args[k]).0 != Flag::Format,
    ensures
        parsed(args) matches Ok(options) ==> options.mode != Mode::Query,
{
    lemma_query_needs_format(args, 0, blank());
}

proof fn lemma_format_needs_query(args: Seq<Seq<char>>, i: int, k: int, draft: Draft)
    requires
        0 <= i,
        draft.format is Some || (is_read_as_flag(args, i, k) && flag_of(args[k]).0 == Flag::Format),
    ensures
        parsed_from(args, i, draft) matches Ok(options) ==> options.mode == Mode::Query
            || options.mode == Mode::Help || options.mode == Mode::Version,
    decreases args.len() - i,
{
    if i >= args.len() {
        if let Some(format) = draft.format {
            lemma_pieces_not_empty(format, ',');
            csv_options_are_those_named(draft.options, pieces(format, ','), 1);
        }
    } else {
        let (flag, carried) = flag_of(args[i]);
        let next = index_after(args, i);
        match flag {
            Flag::List => lemma_format_needs_query(args, next, k, with_mode(draft, Mode::List)),
            Flag::Detail => lemma_format_needs_query(args, next, k, with_mode(draft, Mode::Detail)),
            Flag::HelpQuery => lemma_format_needs_query(
                args,
                next,
                k,
                with_mode(draft, Mode::HelpQuery),
            ),
            Flag::ComputeApps | Flag::Help | Flag::Version | Flag::Unknown => {},
            _ => {
                if let Ok(value) = value_of(args, i, flag, carried) {
                    if let Ok(given) = with_value(draft, flag, value) {
                        lemma_format_needs_query(args, next, k, given);
                    }
                }
            },
        }
    }
}

/// A command line with a `--format` at any place at which it is read as a flag is refused, unless
/// it asks for a query, for help or for the version.
pub proof fn format_needs_query(args: Seq<Seq<char>>, k: int)
    requires
        is_read_as_flag(args, 0, k),
        flag_of(args[k]).0 == Flag::Format,
    ensures
        parsed(args) matches Ok(options) ==> options.mode == Mode::Query || options.mode
            == Mode::Help || options.mode == Mode::Version,
{
    lemma_format_needs_query(args, 0, k, blank());
}

/// The flags that take a value.
pub open spec fn takes_value(flag: Flag) -> bool {
    flag == Flag::Id || flag == Flag::QueryGpu || flag == Flag::Format || flag == Flag::Loop || flag
        == Flag::LoopMs
}

/// An argument that begins like a flag.
proof fn lemma_flags_begin_with_a_dash(arg: Seq<char>)
    requires
        takes_value(flag_of(arg).0),
    ensures
        !only_digits(arg),
{
    reveal_strlit("-i");
    reveal_strlit("--id");
    reveal_strlit("--query-gpu");
    reveal_strlit("--format");
    reveal_strlit("-l");
    reveal_strlit("--loop");
    reveal_strlit("-lms");
    reveal_strlit("--loop-ms");
    reveal_strlit("--id=");
    reveal_strlit("--query-gpu=");
    reveal_strlit("--format=");
    reveal_strlit("--loop-ms=");
    reveal_strlit("--loop=");
    assert forall|prefix: Seq<char>| #[trigger]
        has_prefix(arg, prefix) && prefix.len() > 0 implies arg.len() > 0 && arg[0]
        == prefix[0] by {
        assert(arg.take(prefix.len() as int)[0] == prefix[0]);
    }
    assert(arg.len() > 0 && arg[0] == '-');
    assert(!is_digit(arg[0]));
}

/// What stands behind decides alone how reading goes on.
proof fn lemma_same_rest(a: Seq<Seq<char>>, b: Seq<Seq<char>>, i: int, j: int, draft: Draft)
    requires
        0 <= i,
        0 <= j,
        a.len() - i == b.len() - j,
        forall|k: int| 0 <= k < a.len() - i ==> #[trigger] a[i + k] == b[j + k],
    ensures
        parsed_from(a, i, draft) == parsed_from(b, j, draft),
    decreases a.len() - i, 1int,
{
    if i < a.len() {
        assert(a[i + 0] == b[j + 0]);
        if i + 1 < a.len() {
            assert(a[i + 1] == b[j + 1]);
        }
        let (flag, carried) = flag_of(a[i]);
        match flag {
            Flag::List => lemma_same_rest_behind(a, b, i, j, 1, with_mode(draft, Mode::List)),
            Flag::Detail => lemma_same_rest_behind(a, b, i, j, 1, with_mode(draft, Mode::Detail)),
            Flag::HelpQuery => lemma_same_rest_behind(
                a,
                b,
                i,
                j,
                1,
                with_mode(draft, Mode::HelpQuery),
            ),
            Flag::ComputeApps | Flag::Help | Flag::Version | Flag::Unknown => {},
            _ => {
                if let Ok(value) = value_of(a, i, flag, carried) {
                    if let Ok(next) = with_value(draft, flag, value) {
                        let step = index_behind(a, i, flag, carried) - i;
                        lemma_same_rest_behind(a, b, i, j, step, next);
                    }
                }
            },
        }
    }
}

proof fn lemma_same_rest_behind(
    a: Seq<Seq<char>>,
    b: Seq<Seq<char>>,
    i: int,
    j: int,
    step: int,
    draft: Draft,
)
    requires
        0 <= i < a.len(),
        0 <= j,
        0 < step,
        a.len() - i == b.len() - j,
        forall|k: int| 0 <= k < a.len() - i ==> #[trigger] a[i + k] == b[j + k],
    ensures
        parsed_from(a, i + step, draft) == parsed_from(b, j + step, draft),
    decreases a.len() - i, 0int,
{
    if i + step >= a.len() {
    } else {
        assert forall|k: int| 0 <= k < a.len() - (i + step) implies #[trigger] a[(i + step) + k]
            == b[(j + step) + k] by {
            assert(a[i + (step + k)] == b[j + (step + k)]);
        }
        lemma_same_rest(a, b, i + step, j + step, draft);
    }
}

/// What is read at `k` is not read before.
proof fn lemma_read_from(args: Seq<Seq<char>>, i: int, k: int)
    requires
        is_read_as_flag(args, i, k),
    ensures
        i <= k,
    decreases args.len() + 1 - i,
{
    if i != k {
        lemma_read_from(args, index_after(args, i), k);
    }
}

proof fn lemma_joined(
    apart: Seq<Seq<char>>,
    joined: Seq<Seq<char>>,
    n: int,
    i: int,
    draft: Draft,
)
    requires
        0 <= i <= n,
        n + 1 < apart.len(),
        joined.len() == apart.len() - 1,
        forall|k: int| 0 <= k < n ==> #[trigger] apart[k] == joined[k],
        forall|k: int| n + 1 < k < apart.len() ==> #[trigger] apart[k] == joined[k - 1],
        takes_value(flag_of(apart[n]).0),
        flag_of(apart[n]).1 is None,
        flag_of(joined[n]) == (flag_of(apart[n]).0, Some(apart[n + 1])),
        flag_of(apart[n]).0 == Flag::Loop ==> only_digits(apart[n + 1]),
        is_read_as_flag(apart, i, n),
    ensures
        parsed_from(apart, i, draft) == parsed_from(joined, i, draft),
    decreases n - i,
{
    if i == n {
        let flag = flag_of(apart[n]).0;
        let value = apart[n + 1];
        assert(value_of(apart, n, flag, None) == Ok::<Seq<char>, Seq<char>>(value));
        assert(value_of(joined, n, flag, Some(value)) == Ok::<Seq<char>, Seq<char>>(value));
        if let Ok(next) = with_value(draft, flag, value) {
            assert forall|k: int| 0 <= k < apart.len() - (n + 2) implies #[trigger] apart[(n + 2)
                + k] == joined[(n + 1) + k] by {
                let m = n + 2 + k;
                assert(apart[m] == joined[m - 1]);
            }
            lemma_same_rest(apart, joined, n + 2, n + 1, next);
        }
    } else {
        let (flag, carried) = flag_of(apart[i]);
        let next = index_after(apart, i);
        assert(apart[i] == joined[i]);
        lemma_read_from(apart, next, n);
        lemma_flags_begin_with_a_dash(apart[n]);
        lemma_flags_begin_with_a_dash(joined[n]);
        if i + 1 < n {
            assert(apart[i + 1] == joined[i + 1]);
        }
        match flag {
            Flag::List => lemma_joined(apart, joined, n, next, with_mode(draft, Mode::List)),
            Flag::Detail => lemma_joined(apart, joined, n, next, with_mode(draft, Mode::Detail)),
            Flag::HelpQuery => lemma_joined(
                apart,
                joined,
                n,
                next,
                with_mode(draft, Mode::HelpQuery),
            ),
            Flag::ComputeApps | Flag::Help | Flag::Version | Flag::Unknown => {},
            _ => {
                if let Ok(value) = value_of(apart, i, flag, carried) {
                    if let Ok(given) = with_value(draft, flag, value) {
                        lemma_joined(apart, joined, n, next, given);
                    }
                }
            },
        }
    }
}

/// A value behind a flag and a value joined to it are read alike, wherever the flag is read as one.
/// Behind `-l` and `--loop` that holds of digits only: nothing else is taken for a value there.
pub proof fn joined_values_are_read_alike(
    before: Seq<Seq<char>>,
    flag: Seq<char>,
    value: Seq<char>,
    both: Seq<char>,
    behind: Seq<Seq<char>>,
)
    requires
        takes_value(flag_of(flag).0),
        flag_of(flag).1 is None,
        flag_of(both) == (flag_of(flag).0, Some(value)),
        flag_of(flag).0 == Flag::Loop ==> only_digits(value),
        is_read_as_flag(before + seq![flag, value] + behind, 0, before.len() as int),
    ensures
        parsed(before + seq![flag, value] + behind) == parsed(before + seq![both] + behind),
{
    let apart = before + seq![flag, value] + behind;
    let joined = before + seq![both] + behind;
    let n = before.len() as int;
    assert(apart[n] == flag && apart[n + 1] == value && joined[n] == both);
    assert forall|k: int| n + 1 < k < apart.len() implies #[trigger] apart[k] == joined[k - 1] by {
        assert(apart[k] == behind[k - n - 2]);
        assert(joined[k - 1] == behind[k - n - 2]);
    }
    assert forall|k: int| 0 <= k < n implies #[trigger] apart[k] == joined[k] by {
        assert(apart[k] == before[k]);
        assert(joined[k] == before[k]);
    }
    lemma_joined(apart, joined, n, 0, blank());
}

/// The prefix of a text with something behind it is what it begins with.
proof fn lemma_prefix_of(arg: Seq<char>, prefix: Seq<char>, rest: Seq<char>)
    requires
        arg == prefix + rest,
    ensures
        without_prefix(arg, prefix) == Some(rest),
{
    assert(arg.take(prefix.len() as int) =~= prefix);
    assert(arg.skip(prefix.len() as int) =~= rest);
}

/// A text that differs from a prefix somewhere does not begin with it.
proof fn lemma_no_prefix(arg: Seq<char>, prefix: Seq<char>, i: int)
    requires
        0 <= i < prefix.len(),
        i < arg.len() ==> arg[i] != prefix[i],
    ensures
        !has_prefix(arg, prefix),
        arg != prefix,
{
    if has_prefix(arg, prefix) {
        assert(arg.take(prefix.len() as int)[i] == prefix[i]);
    }
}

proof fn lemma_carried_id(value: Seq<char>)
    ensures
        flag_of("--id="@ + value) == (Flag::Id, Some(value)),
{
    let arg = "--id="@ + value;
    reveal_strlit("--id=");
    reveal_strlit("-L");
    reveal_strlit("--list-gpus");
    reveal_strlit("-q");
    reveal_strlit("--query");
    reveal_strlit("--help-query-gpu");
    reveal_strlit("-i");
    reveal_strlit("--id");
    reveal_strlit("--query-gpu");
    reveal_strlit("--format");
    reveal_strlit("-l");
    reveal_strlit("--loop");
    reveal_strlit("-lms");
    reveal_strlit("--loop-ms");
    lemma_no_prefix(arg, "-L"@, 1);
    lemma_no_prefix(arg, "--list-gpus"@, 2);
    lemma_no_prefix(arg, "-q"@, 1);
    lemma_no_prefix(arg, "--query"@, 2);
    lemma_no_prefix(arg, "--help-query-gpu"@, 2);
    lemma_no_prefix(arg, "-i"@, 1);
    assert(arg.len() > "--id"@.len());
    lemma_no_prefix(arg, "--query-gpu"@, 2);
    lemma_no_prefix(arg, "--format"@, 2);
    lemma_no_prefix(arg, "-l"@, 1);
    lemma_no_prefix(arg, "--loop"@, 2);
    lemma_no_prefix(arg, "-lms"@, 1);
    lemma_no_prefix(arg, "--loop-ms"@, 2);
    lemma_prefix_of(arg, "--id="@, value);
}

proof fn lemma_carried_query(value: Seq<char>)
    ensures
        flag_of("--query-gpu="@ + value) == (Flag::QueryGpu, Some(value)),
{
    let arg = "--query-gpu="@ + value;
    reveal_strlit("--query-gpu=");
    reveal_strlit("-L");
    reveal_strlit("--list-gpus");
    reveal_strlit("-q");
    reveal_strlit("--query");
    reveal_strlit("--help-query-gpu");
    reveal_strlit("-i");
    reveal_strlit("--id");
    reveal_strlit("--query-gpu");
    reveal_strlit("--format");
    reveal_strlit("-l");
    reveal_strlit("--loop");
    reveal_strlit("-lms");
    reveal_strlit("--loop-ms");
    reveal_strlit("--id=");
    lemma_no_prefix(arg, "-L"@, 1);
    lemma_no_prefix(arg, "--list-gpus"@, 2);
    lemma_no_prefix(arg, "-q"@, 1);
    assert(arg.len() > "--query"@.len());
    lemma_no_prefix(arg, "--help-query-gpu"@, 2);
    lemma_no_prefix(arg, "-i"@, 1);
    lemma_no_prefix(arg, "--id"@, 2);
    assert(arg.len() > "--query-gpu"@.len());
    lemma_no_prefix(arg, "--format"@, 2);
    lemma_no_prefix(arg, "-l"@, 1);
    lemma_no_prefix(arg, "--loop"@, 2);
    lemma_no_prefix(arg, "-lms"@, 1);
    lemma_no_prefix(arg, "--loop-ms"@, 2);
    lemma_no_prefix(arg, "--id="@, 2);
    lemma_prefix_of(arg, "--query-gpu="@, value);
}

proof fn lemma_carried_format(value: Seq<char>)
    ensures
        flag_of("--format="@ + value) == (Flag::Format, Some(value)),
{
    let arg = "--format="@ + value;
    reveal_strlit("--format=");
    reveal_strlit("-L");
    reveal_strlit("--list-gpus");
    reveal_strlit("-q");
    reveal_strlit("--query");
    reveal_strlit("--help-query-gpu");
    reveal_strlit("-i");
    reveal_strlit("--id");
    reveal_strlit("--query-gpu");
    reveal_strlit("--format");
    reveal_strlit("-l");
    reveal_strlit("--loop");
    reveal_strlit("-lms");
    reveal_strlit("--loop-ms");
    reveal_strlit("--id=");
    reveal_strlit("--query-gpu=");
    lemma_no_prefix(arg, "-L"@, 1);
    lemma_no_prefix(arg, "--list-gpus"@, 2);
    lemma_no_prefix(arg, "-q"@, 1);
    lemma_no_prefix(arg, "--query"@, 2);
    lemma_no_prefix(arg, "--help-query-gpu"@, 2);
    lemma_no_prefix(arg, "-i"@, 1);
    lemma_no_prefix(arg, "--id"@, 2);
    lemma_no_prefix(arg, "--query-gpu"@, 2);
    assert(arg.len() > "--format"@.len());
    lemma_no_prefix(arg, "-l"@, 1);
    lemma_no_prefix(arg, "--loop"@, 2);
    lemma_no_prefix(arg, "-lms"@, 1);
    lemma_no_prefix(arg, "--loop-ms"@, 2);
    lemma_no_prefix(arg, "--id="@, 2);
    lemma_no_prefix(arg, "--query-gpu="@, 2);
    lemma_prefix_of(arg, "--format="@, value);
}

proof fn lemma_carried_loop_ms(value: Seq<char>)
    ensures
        flag_of("--loop-ms="@ + value) == (Flag::LoopMs, Some(value)),
{
    let arg = "--loop-ms="@ + value;
    reveal_strlit("--loop-ms=");
    reveal_strlit("-L");
    reveal_strlit("--list-gpus");
    reveal_strlit("-q");
    reveal_strlit("--query");
    reveal_strlit("--help-query-gpu");
    reveal_strlit("-i");
    reveal_strlit("--id");
    reveal_strlit("--query-gpu");
    reveal_strlit("--format");
    reveal_strlit("-l");
    reveal_strlit("--loop");
    reveal_strlit("-lms");
    reveal_strlit("--loop-ms");
    reveal_strlit("--id=");
    reveal_strlit("--query-gpu=");
    reveal_strlit("--format=");
    lemma_no_prefix(arg, "-L"@, 1);
    lemma_no_prefix(arg, "--list-gpus"@, 3);
    lemma_no_prefix(arg, "-q"@, 1);
    lemma_no_prefix(arg, "--query"@, 2);
    lemma_no_prefix(arg, "--help-query-gpu"@, 2);
    lemma_no_prefix(arg, "-i"@, 1);
    lemma_no_prefix(arg, "--id"@, 2);
    lemma_no_prefix(arg, "--query-gpu"@, 2);
    lemma_no_prefix(arg, "--format"@, 2);
    lemma_no_prefix(arg, "-l"@, 1);
    assert(arg.len() > "--loop"@.len());
    lemma_no_prefix(arg, "-lms"@, 1);
    assert(arg.len() > "--loop-ms"@.len());
    lemma_no_prefix(arg, "--id="@, 2);
    lemma_no_prefix(arg, "--query-gpu="@, 2);
    lemma_no_prefix(arg, "--format="@, 2);
    lemma_prefix_of(arg, "--loop-ms="@, value);
}

proof fn lemma_carried_loop(value: Seq<char>)
    ensures
        flag_of("--loop="@ + value) == (Flag::Loop, Some(value)),
{
    let arg = "--loop="@ + value;
    reveal_strlit("--loop=");
    reveal_strlit("-L");
    reveal_strlit("--list-gpus");
    reveal_strlit("-q");
    reveal_strlit("--query");
    reveal_strlit("--help-query-gpu");
    reveal_strlit("-i");
    reveal_strlit("--id");
    reveal_strlit("--query-gpu");
    reveal_strlit("--format");
    reveal_strlit("-l");
    reveal_strlit("--loop");
    reveal_strlit("-lms");
    reveal_strlit("--loop-ms");
    reveal_strlit("--id=");
    reveal_strlit("--query-gpu=");
    reveal_strlit("--format=");
    reveal_strlit("--loop-ms=");
    lemma_no_prefix(arg, "-L"@, 1);
    lemma_no_prefix(arg, "--list-gpus"@, 3);
    lemma_no_prefix(arg, "-q"@, 1);
    lemma_no_prefix(arg, "--query"@, 2);
    lemma_no_prefix(arg, "--help-query-gpu"@, 2);
    lemma_no_prefix(arg, "-i"@, 1);
    lemma_no_prefix(arg, "--id"@, 2);
    lemma_no_prefix(arg, "--query-gpu"@, 2);
    lemma_no_prefix(arg, "--format"@, 2);
    lemma_no_prefix(arg, "-l"@, 1);
    assert(arg.len() > "--loop"@.len());
    lemma_no_prefix(arg, "-lms"@, 1);
    lemma_no_prefix(arg, "--loop-ms"@, 6);
    lemma_no_prefix(arg, "--id="@, 2);
    lemma_no_prefix(arg, "--query-gpu="@, 2);
    lemma_no_prefix(arg, "--format="@, 2);
    lemma_no_prefix(arg, "--loop-ms="@, 6);
    lemma_prefix_of(arg, "--loop="@, value);
}

proof fn lemma_carried_lms(value: Seq<char>)
    requires
        value.len() > 0,
    ensures
        flag_of("-lms"@ + value) == (Flag::LoopMs, Some(value)),
{
    let arg = "-lms"@ + value;
    reveal_strlit("-L");
    reveal_strlit("--list-gpus");
    reveal_strlit("-q");
    reveal_strlit("--query");
    reveal_strlit("--help-query-gpu");
    reveal_strlit("-i");
    reveal_strlit("--id");
    reveal_strlit("--query-gpu");
    reveal_strlit("--format");
    reveal_strlit("-l");
    reveal_strlit("--loop");
    reveal_strlit("-lms");
    reveal_strlit("--loop-ms");
    reveal_strlit("--id=");
    reveal_strlit("--query-gpu=");
    reveal_strlit("--format=");
    reveal_strlit("--loop-ms=");
    reveal_strlit("--loop=");
    lemma_no_prefix(arg, "-L"@, 1);
    lemma_no_prefix(arg, "--list-gpus"@, 1);
    lemma_no_prefix(arg, "-q"@, 1);
    lemma_no_prefix(arg, "--query"@, 1);
    lemma_no_prefix(arg, "--help-query-gpu"@, 1);
    lemma_no_prefix(arg, "-i"@, 1);
    lemma_no_prefix(arg, "--id"@, 1);
    lemma_no_prefix(arg, "--query-gpu"@, 1);
    lemma_no_prefix(arg, "--format"@, 1);
    assert(arg.len() > "-l"@.len());
    lemma_no_prefix(arg, "--loop"@, 1);
    assert(arg.len() > "-lms"@.len());
    lemma_no_prefix(arg, "--loop-ms"@, 1);
    lemma_no_prefix(arg, "--id="@, 1);
    lemma_no_prefix(arg, "--query-gpu="@, 1);
    lemma_no_prefix(arg, "--format="@, 1);
    lemma_no_prefix(arg, "--loop-ms="@, 1);
    lemma_no_prefix(arg, "--loop="@, 1);
    lemma_prefix_of(arg, "-lms"@, value);
}

proof fn lemma_carried_l(value: Seq<char>)
    requires
        value.len() > 0,
        !has_prefix("-l"@ + value, "-lms"@),
    ensures
        flag_of("-l"@ + value) == (Flag::Loop, Some(value)),
{
    let arg = "-l"@ + value;
    reveal_strlit("-L");
    reveal_strlit("--list-gpus");
    reveal_strlit("-q");
    reveal_strlit("--query");
    reveal_strlit("--help-query-gpu");
    reveal_strlit("-i");
    reveal_strlit("--id");
    reveal_strlit("--query-gpu");
    reveal_strlit("--format");
    reveal_strlit("-l");
    reveal_strlit("--loop");
    reveal_strlit("-lms");
    reveal_strlit("--loop-ms");
    reveal_strlit("--id=");
    reveal_strlit("--query-gpu=");
    reveal_strlit("--format=");
    reveal_strlit("--loop-ms=");
    reveal_strlit("--loop=");
    lemma_no_prefix(arg, "-L"@, 1);
    lemma_no_prefix(arg, "--list-gpus"@, 1);
    lemma_no_prefix(arg, "-q"@, 1);
    lemma_no_prefix(arg, "--query"@, 1);
    lemma_no_prefix(arg, "--help-query-gpu"@, 1);
    lemma_no_prefix(arg, "-i"@, 1);
    lemma_no_prefix(arg, "--id"@, 1);
    lemma_no_prefix(arg, "--query-gpu"@, 1);
    lemma_no_prefix(arg, "--format"@, 1);
    assert(arg.len() > "-l"@.len());
    lemma_no_prefix(arg, "--loop"@, 1);
    lemma_no_prefix(arg, "--loop-ms"@, 1);
    lemma_no_prefix(arg, "--id="@, 1);
    lemma_no_prefix(arg, "--query-gpu="@, 1);
    lemma_no_prefix(arg, "--format="@, 1);
    lemma_no_prefix(arg, "--loop-ms="@, 1);
    lemma_no_prefix(arg, "--loop="@, 1);
    assert("-lms"@.take(4) =~= "-lms"@);
    lemma_prefix_of(arg, "-l"@, value);
}

proof fn lemma_bare_flags()
    ensures
        flag_of("-i"@) == (Flag::Id, None::<Seq<char>>),
        flag_of("--id"@) == (Flag::Id, None::<Seq<char>>),
        flag_of("--query-gpu"@) == (Flag::QueryGpu, None::<Seq<char>>),
        flag_of("--format"@) == (Flag::Format, None::<Seq<char>>),
        flag_of("-l"@) == (Flag::Loop, None::<Seq<char>>),
        flag_of("--loop"@) == (Flag::Loop, None::<Seq<char>>),
        flag_of("-lms"@) == (Flag::LoopMs, None::<Seq<char>>),
        flag_of("--loop-ms"@) == (Flag::LoopMs, None::<Seq<char>>),
{
    reveal_strlit("-L");
    reveal_strlit("--list-gpus");
    reveal_strlit("-q");
    reveal_strlit("--query");
    reveal_strlit("--help-query-gpu");
    reveal_strlit("-i");
    reveal_strlit("--id");
    reveal_strlit("--query-gpu");
    reveal_strlit("--format");
    reveal_strlit("-l");
    reveal_strlit("--loop");
    reveal_strlit("-lms");
    reveal_strlit("--loop-ms");
    lemma_no_prefix("-i"@, "-L"@, 1);
    lemma_no_prefix("-i"@, "--list-gpus"@, 1);
    lemma_no_prefix("-i"@, "-q"@, 1);
    lemma_no_prefix("-i"@, "--query"@, 1);
    lemma_no_prefix("-i"@, "--help-query-gpu"@, 1);
    lemma_no_prefix("--id"@, "-L"@, 1);
    lemma_no_prefix("--id"@, "--list-gpus"@, 2);
    lemma_no_prefix("--id"@, "-q"@, 1);
    lemma_no_prefix("--id"@, "--query"@, 2);
    lemma_no_prefix("--id"@, "--help-query-gpu"@, 2);
    lemma_no_prefix("--id"@, "-i"@, 1);
    lemma_no_prefix("--query-gpu"@, "-L"@, 1);
    lemma_no_prefix("--query-gpu"@, "--list-gpus"@, 2);
    lemma_no_prefix("--query-gpu"@, "-q"@, 1);
    assert("--query-gpu"@.len() != "--query"@.len());
    lemma_no_prefix("--query-gpu"@, "--help-query-gpu"@, 2);
    lemma_no_prefix("--query-gpu"@, "-i"@, 1);
    lemma_no_prefix("--query-gpu"@, "--id"@, 2);
    lemma_no_prefix("--format"@, "-L"@, 1);
    lemma_no_prefix("--format"@, "--list-gpus"@, 2);
    lemma_no_prefix("--format"@, "-q"@, 1);
    lemma_no_prefix("--format"@, "--query"@, 2);
    lemma_no_prefix("--format"@, "--help-query-gpu"@, 2);
    lemma_no_prefix("--format"@, "-i"@, 1);
    lemma_no_prefix("--format"@, "--id"@, 2);
    lemma_no_prefix("--format"@, "--query-gpu"@, 2);
    lemma_no_prefix("-l"@, "-L"@, 1);
    lemma_no_prefix("-l"@, "--list-gpus"@, 1);
    lemma_no_prefix("-l"@, "-q"@, 1);
    lemma_no_prefix("-l"@, "--query"@, 1);
    lemma_no_prefix("-l"@, "--help-query-gpu"@, 1);
    lemma_no_prefix("-l"@, "-i"@, 1);
    lemma_no_prefix("-l"@, "--id"@, 1);
    lemma_no_prefix("-l"@, "--query-gpu"@, 1);
    lemma_no_prefix("-l"@, "--format"@, 1);
    lemma_no_prefix("--loop"@, "-L"@, 1);
    lemma_no_prefix("--loop"@, "--list-gpus"@, 3);
    lemma_no_prefix("--loop"@, "-q"@, 1);
    lemma_no_prefix("--loop"@, "--query"@, 2);
    lemma_no_prefix("--loop"@, "--help-query-gpu"@, 2);
    lemma_no_prefix("--loop"@, "-i"@, 1);
    lemma_no_prefix("--loop"@, "--id"@, 2);
    lemma_no_prefix("--loop"@, "--query-gpu"@, 2);
    lemma_no_prefix("--loop"@, "--format"@, 2);
    lemma_no_prefix("--loop"@, "-l"@, 1);
    lemma_no_prefix("-lms"@, "-L"@, 1);
    lemma_no_prefix("-lms"@, "--list-gpus"@, 1);
    lemma_no_prefix("-lms"@, "-q"@, 1);
    lemma_no_prefix("-lms"@, "--query"@, 1);
    lemma_no_prefix("-lms"@, "--help-query-gpu"@, 1);
    lemma_no_prefix("-lms"@, "-i"@, 1);
    lemma_no_prefix("-lms"@, "--id"@, 1);
    lemma_no_prefix("-lms"@, "--query-gpu"@, 1);
    lemma_no_prefix("-lms"@, "--format"@, 1);
    assert("-lms"@.len() != "-l"@.len());
    lemma_no_prefix("-lms"@, "--loop"@, 1);
    lemma_no_prefix("--loop-ms"@, "-L"@, 1);
    lemma_no_prefix("--loop-ms"@, "--list-gpus"@, 3);
    lemma_no_prefix("--loop-ms"@, "-q"@, 1);
    lemma_no_prefix("--loop-ms"@, "--query"@, 2);
    lemma_no_prefix("--loop-ms"@, "--help-query-gpu"@, 2);
    lemma_no_prefix("--loop-ms"@, "-i"@, 1);
    lemma_no_prefix("--loop-ms"@, "--id"@, 2);
    lemma_no_prefix("--loop-ms"@, "--query-gpu"@, 2);
    lemma_no_prefix("--loop-ms"@, "--format"@, 2);
    lemma_no_prefix("--loop-ms"@, "-l"@, 1);
    assert("--loop-ms"@.len() != "--loop"@.len());
    lemma_no_prefix("--loop-ms"@, "-lms"@, 1);
}

/// Which flag takes a value in which form: behind it, or joined to it by an equals sign; the two
/// short loops take it without one.
pub proof fn flags_have_two_forms(value: Seq<char>)
    ensures
        flag_of("-i"@) == (Flag::Id, None::<Seq<char>>),
        flag_of("--id"@) == (Flag::Id, None::<Seq<char>>),
        flag_of("--id="@ + value) == (Flag::Id, Some(value)),
        flag_of("--query-gpu"@) == (Flag::QueryGpu, None::<Seq<char>>),
        flag_of("--query-gpu="@ + value) == (Flag::QueryGpu, Some(value)),
        flag_of("--format"@) == (Flag::Format, None::<Seq<char>>),
        flag_of("--format="@ + value) == (Flag::Format, Some(value)),
        flag_of("-l"@) == (Flag::Loop, None::<Seq<char>>),
        flag_of("--loop"@) == (Flag::Loop, None::<Seq<char>>),
        flag_of("--loop="@ + value) == (Flag::Loop, Some(value)),
        flag_of("-lms"@) == (Flag::LoopMs, None::<Seq<char>>),
        flag_of("--loop-ms"@) == (Flag::LoopMs, None::<Seq<char>>),
        flag_of("--loop-ms="@ + value) == (Flag::LoopMs, Some(value)),
        value.len() > 0 ==> flag_of("-lms"@ + value) == (Flag::LoopMs, Some(value)),
        value.len() > 0 && !has_prefix("-l"@ + value, "-lms"@) ==> flag_of("-l"@ + value) == (
            Flag::Loop,
            Some(value),
        ),
{
    if value.len() > 0 {
        lemma_carried_lms(value);
        if !has_prefix("-l"@ + value, "-lms"@) {
            lemma_carried_l(value);
        }
    }
    lemma_bare_flags();
    lemma_carried_id(value);
    lemma_carried_query(value);
    lemma_carried_format(value);
    lemma_carried_loop_ms(value);
    lemma_carried_loop(value);
}

/// Where no argument is left, neither help nor version is asked for.
proof fn lemma_accepted_at_end(args: Seq<Seq<char>>, i: int, draft: Draft)
    requires
        i >= args.len(),
        is_open_draft(draft),
    ensures
        parsed_from(args, i, draft) matches Ok(options) ==> options.mode != Mode::Help
            && options.mode != Mode::Version,
{
    if let Some(format) = draft.format {
        lemma_pieces_not_empty(format, ',');
        csv_options_are_those_named(draft.options, pieces(format, ','), 1);
    }
}

proof fn lemma_rest_is_not_read(args: Seq<Seq<char>>, rest: Seq<Seq<char>>, i: int, draft: Draft)
    requires
        0 <= i,
        is_open_draft(draft),
        parsed_from(args, i, draft) matches Ok(options) && (options.mode == Mode::Help
            || options.mode == Mode::Version),
    ensures
        parsed_from(args + rest, i, draft) == parsed_from(args, i, draft),
    decreases args.len() - i,
{
    if i >= args.len() {
        lemma_accepted_at_end(args, i, draft);
    } else {
        let (flag, carried) = flag_of(args[i]);
        assert((args + rest)[i] == args[i]);
        match flag {
            Flag::List => lemma_rest_is_not_read(args, rest, i + 1, with_mode(draft, Mode::List)),
            Flag::Detail => lemma_rest_is_not_read(
                args,
                rest,
                i + 1,
                with_mode(draft, Mode::Detail),
            ),
            Flag::HelpQuery => lemma_rest_is_not_read(
                args,
                rest,
                i + 1,
                with_mode(draft, Mode::HelpQuery),
            ),
            Flag::ComputeApps | Flag::Help | Flag::Version | Flag::Unknown => {},
            _ => {
                if let Ok(value) = value_of(args, i, flag, carried) {
                    lemma_value_keeps_draft_open(draft, flag, value);
                    if let Ok(next) = with_value(draft, flag, value) {
                        let behind = index_behind(args, i, flag, carried);
                        lemma_rest_is_not_read(args, rest, behind, next);
                        if carried is None {
                            if i + 1 < args.len() {
                                assert((args + rest)[i + 1] == args[i + 1]);
                            } else {
                                lemma_accepted_at_end(args, behind, next);
                            }
                        }
                    }
                }
            },
        }
    }
}

/// A command line that asks for help or for the version does so whatever stands behind it.
pub proof fn help_ends_the_command_line(args: Seq<Seq<char>>, rest: Seq<Seq<char>>)
    requires
        parsed(args) matches Ok(options) && (options.mode == Mode::Help || options.mode
            == Mode::Version),
    ensures
        parsed(args + rest) == parsed(args),
{
    lemma_rest_is_not_read(args, rest, 0, blank());
}

/// The fields that a query can ask for.
pub proof fn these_fields_can_be_asked_for(field: Seq<char>)
    ensures
        field_names().len() == 20,
        field_names().contains(field) <==> {
            ||| field == "timestamp"@
            ||| field == "index"@
            ||| field == "name"@
            ||| field == "pci.bus_id"@
            ||| field == "display_active"@
            ||| field == "memory.total"@
            ||| field == "memory.used"@
            ||| field == "memory.free"@
            ||| field == "memory.visible.total"@
            ||| field == "memory.visible.used"@
            ||| field == "memory.gtt.total"@
            ||| field == "memory.gtt.used"@
            ||| field == "utilization.gpu"@
            ||| field == "temperature.gpu"@
            ||| field == "clocks.current.graphics"@
            ||| field == "clocks.current.memory"@
            ||| field == "power.draw"@
            ||| field == "power.limit"@
            ||| field == "fan.speed"@
            ||| field == "ecc.errors.uncorrected.volatile.total"@
        },
{
    assert(field_names()[0] == "timestamp"@);
    assert(field_names()[1] == "index"@);
    assert(field_names()[2] == "name"@);
    assert(field_names()[3] == "pci.bus_id"@);
    assert(field_names()[4] == "display_active"@);
    assert(field_names()[5] == "memory.total"@);
    assert(field_names()[6] == "memory.used"@);
    assert(field_names()[7] == "memory.free"@);
    assert(field_names()[8] == "memory.visible.total"@);
    assert(field_names()[9] == "memory.visible.used"@);
    assert(field_names()[10] == "memory.gtt.total"@);
    assert(field_names()[11] == "memory.gtt.used"@);
    assert(field_names()[12] == "utilization.gpu"@);
    assert(field_names()[13] == "temperature.gpu"@);
    assert(field_names()[14] == "clocks.current.graphics"@);
    assert(field_names()[15] == "clocks.current.memory"@);
    assert(field_names()[16] == "power.draw"@);
    assert(field_names()[17] == "power.limit"@);
    assert(field_names()[18] == "fan.speed"@);
    assert(field_names()[19] == "ecc.errors.uncorrected.volatile.total"@);
}

proof fn lemma_flag_detail()
    ensures
        flag_of("-q"@) == (Flag::Detail, None::<Seq<char>>),
{
    reveal_strlit("-q");
    reveal_strlit("-L");
    reveal_strlit("--list-gpus");
    assert("-q"@[1] == 'q' && "-L"@[1] == 'L');
    lemma_no_prefix("-q"@, "-L"@, 1);
    lemma_no_prefix("-q"@, "--list-gpus"@, 1);
}

proof fn lemma_flag_detail_long()
    ensures
        flag_of("--query"@) == (Flag::Detail, None::<Seq<char>>),
{
    reveal_strlit("--query");
    reveal_strlit("-L");
    reveal_strlit("--list-gpus");
    reveal_strlit("-q");
    lemma_no_prefix("--query"@, "-L"@, 1);
    lemma_no_prefix("--query"@, "--list-gpus"@, 2);
    lemma_no_prefix("--query"@, "-q"@, 1);
}

proof fn lemma_flag_help_query()
    ensures
        flag_of("--help-query-gpu"@) == (Flag::HelpQuery, None::<Seq<char>>),
{
    reveal_strlit("--help-query-gpu");
    reveal_strlit("-L");
    reveal_strlit("--list-gpus");
    reveal_strlit("-q");
    reveal_strlit("--query");
    lemma_no_prefix("--help-query-gpu"@, "-L"@, 1);
    lemma_no_prefix("--help-query-gpu"@, "--list-gpus"@, 2);
    lemma_no_prefix("--help-query-gpu"@, "-q"@, 1);
    lemma_no_prefix("--help-query-gpu"@, "--query"@, 2);
}

proof fn lemma_flag_help()
    ensures
        flag_of("-h"@) == (Flag::Help, None::<Seq<char>>),
{
    reveal_strlit("-h");
    reveal_strlit("-L");
    reveal_strlit("--list-gpus");
    reveal_strlit("-q");
    reveal_strlit("--query");
    reveal_strlit("--help-query-gpu");
    reveal_strlit("-i");
    reveal_strlit("--id");
    reveal_strlit("--query-gpu");
    reveal_strlit("--format");
    reveal_strlit("-l");
    reveal_strlit("--loop");
    reveal_strlit("-lms");
    reveal_strlit("--loop-ms");
    reveal_strlit("--id=");
    reveal_strlit("--query-gpu=");
    reveal_strlit("--format=");
    reveal_strlit("--loop-ms=");
    reveal_strlit("--loop=");
    reveal_strlit("--query-compute-apps");
    reveal_strlit("--query-compute-apps=");
    lemma_no_prefix("-h"@, "-L"@, 1);
    lemma_no_prefix("-h"@, "--list-gpus"@, 1);
    lemma_no_prefix("-h"@, "-q"@, 1);
    lemma_no_prefix("-h"@, "--query"@, 1);
    lemma_no_prefix("-h"@, "--help-query-gpu"@, 1);
    lemma_no_prefix("-h"@, "-i"@, 1);
    lemma_no_prefix("-h"@, "--id"@, 1);
    lemma_no_prefix("-h"@, "--query-gpu"@, 1);
    lemma_no_prefix("-h"@, "--format"@, 1);
    lemma_no_prefix("-h"@, "-l"@, 1);
    lemma_no_prefix("-h"@, "--loop"@, 1);
    lemma_no_prefix("-h"@, "-lms"@, 1);
    lemma_no_prefix("-h"@, "--loop-ms"@, 1);
    lemma_no_prefix("-h"@, "--id="@, 1);
    lemma_no_prefix("-h"@, "--query-gpu="@, 1);
    lemma_no_prefix("-h"@, "--format="@, 1);
    lemma_no_prefix("-h"@, "--loop-ms="@, 1);
    lemma_no_prefix("-h"@, "--loop="@, 1);
    lemma_no_prefix("-h"@, "--query-compute-apps"@, 1);
    lemma_no_prefix("-h"@, "--query-compute-apps="@, 1);
}

proof fn lemma_flag_help_long()
    ensures
        flag_of("--help"@) == (Flag::Help, None::<Seq<char>>),
{
    reveal_strlit("--help");
    reveal_strlit("-L");
    reveal_strlit("--list-gpus");
    reveal_strlit("-q");
    reveal_strlit("--query");
    reveal_strlit("--help-query-gpu");
    reveal_strlit("-i");
    reveal_strlit("--id");
    reveal_strlit("--query-gpu");
    reveal_strlit("--format");
    reveal_strlit("-l");
    reveal_strlit("--loop");
    reveal_strlit("-lms");
    reveal_strlit("--loop-ms");
    reveal_strlit("--id=");
    reveal_strlit("--query-gpu=");
    reveal_strlit("--format=");
    reveal_strlit("--loop-ms=");
    reveal_strlit("--loop=");
    reveal_strlit("--query-compute-apps");
    reveal_strlit("--query-compute-apps=");
    reveal_strlit("-h");
    lemma_no_prefix("--help"@, "-L"@, 1);
    lemma_no_prefix("--help"@, "--list-gpus"@, 2);
    lemma_no_prefix("--help"@, "-q"@, 1);
    lemma_no_prefix("--help"@, "--query"@, 2);
    assert("--help"@.len() != "--help-query-gpu"@.len());
    lemma_no_prefix("--help"@, "-i"@, 1);
    lemma_no_prefix("--help"@, "--id"@, 2);
    lemma_no_prefix("--help"@, "--query-gpu"@, 2);
    lemma_no_prefix("--help"@, "--format"@, 2);
    lemma_no_prefix("--help"@, "-l"@, 1);
    lemma_no_prefix("--help"@, "--loop"@, 2);
    lemma_no_prefix("--help"@, "-lms"@, 1);
    lemma_no_prefix("--help"@, "--loop-ms"@, 2);
    lemma_no_prefix("--help"@, "--id="@, 2);
    lemma_no_prefix("--help"@, "--query-gpu="@, 2);
    lemma_no_prefix("--help"@, "--format="@, 2);
    lemma_no_prefix("--help"@, "--loop-ms="@, 2);
    lemma_no_prefix("--help"@, "--loop="@, 2);
    lemma_no_prefix("--help"@, "--query-compute-apps"@, 2);
    lemma_no_prefix("--help"@, "--query-compute-apps="@, 2);
    lemma_no_prefix("--help"@, "-h"@, 1);
}

proof fn lemma_flag_version()
    ensures
        flag_of("--version"@) == (Flag::Version, None::<Seq<char>>),
{
    reveal_strlit("--version");
    reveal_strlit("-L");
    reveal_strlit("--list-gpus");
    reveal_strlit("-q");
    reveal_strlit("--query");
    reveal_strlit("--help-query-gpu");
    reveal_strlit("-i");
    reveal_strlit("--id");
    reveal_strlit("--query-gpu");
    reveal_strlit("--format");
    reveal_strlit("-l");
    reveal_strlit("--loop");
    reveal_strlit("-lms");
    reveal_strlit("--loop-ms");
    reveal_strlit("--id=");
    reveal_strlit("--query-gpu=");
    reveal_strlit("--format=");
    reveal_strlit("--loop-ms=");
    reveal_strlit("--loop=");
    reveal_strlit("--query-compute-apps");
    reveal_strlit("--query-compute-apps=");
    reveal_strlit("-h");
    reveal_strlit("--help");
    lemma_no_prefix("--version"@, "-L"@, 1);
    lemma_no_prefix("--version"@, "--list-gpus"@, 2);
    lemma_no_prefix("--version"@, "-q"@, 1);
    lemma_no_prefix("--version"@, "--query"@, 2);
    lemma_no_prefix("--version"@, "--help-query-gpu"@, 2);
    lemma_no_prefix("--version"@, "-i"@, 1);
    lemma_no_prefix("--version"@, "--id"@, 2);
    lemma_no_prefix("--version"@, "--query-gpu"@, 2);
    lemma_no_prefix("--version"@, "--format"@, 2);
    lemma_no_prefix("--version"@, "-l"@, 1);
    lemma_no_prefix("--version"@, "--loop"@, 2);
    lemma_no_prefix("--version"@, "-lms"@, 1);
    lemma_no_prefix("--version"@, "--loop-ms"@, 2);
    lemma_no_prefix("--version"@, "--id="@, 2);
    lemma_no_prefix("--version"@, "--query-gpu="@, 2);
    lemma_no_prefix("--version"@, "--format="@, 2);
    lemma_no_prefix("--version"@, "--loop-ms="@, 2);
    lemma_no_prefix("--version"@, "--loop="@, 2);
    lemma_no_prefix("--version"@, "--query-compute-apps"@, 2);
    lemma_no_prefix("--version"@, "--query-compute-apps="@, 2);
    lemma_no_prefix("--version"@, "-h"@, 1);
    lemma_no_prefix("--version"@, "--help"@, 2);
}

proof fn lemma_flag_compute_apps()
    ensures
        flag_of("--query-compute-apps"@) == (Flag::ComputeApps, None::<Seq<char>>),
{
    reveal_strlit("--query-compute-apps");
    reveal_strlit("-L");
    reveal_strlit("--list-gpus");
    reveal_strlit("-q");
    reveal_strlit("--query");
    reveal_strlit("--help-query-gpu");
    reveal_strlit("-i");
    reveal_strlit("--id");
    reveal_strlit("--query-gpu");
    reveal_strlit("--format");
    reveal_strlit("-l");
    reveal_strlit("--loop");
    reveal_strlit("-lms");
    reveal_strlit("--loop-ms");
    reveal_strlit("--id=");
    reveal_strlit("--query-gpu=");
    reveal_strlit("--format=");
    reveal_strlit("--loop-ms=");
    reveal_strlit("--loop=");
    lemma_no_prefix("--query-compute-apps"@, "-L"@, 1);
    lemma_no_prefix("--query-compute-apps"@, "--list-gpus"@, 2);
    lemma_no_prefix("--query-compute-apps"@, "-q"@, 1);
    assert("--query-compute-apps"@.len() != "--query"@.len());
    lemma_no_prefix("--query-compute-apps"@, "--help-query-gpu"@, 2);
    lemma_no_prefix("--query-compute-apps"@, "-i"@, 1);
    lemma_no_prefix("--query-compute-apps"@, "--id"@, 2);
    lemma_no_prefix("--query-compute-apps"@, "--query-gpu"@, 8);
    lemma_no_prefix("--query-compute-apps"@, "--format"@, 2);
    lemma_no_prefix("--query-compute-apps"@, "-l"@, 1);
    lemma_no_prefix("--query-compute-apps"@, "--loop"@, 2);
    lemma_no_prefix("--query-compute-apps"@, "-lms"@, 1);
    lemma_no_prefix("--query-compute-apps"@, "--loop-ms"@, 2);
    lemma_no_prefix("--query-compute-apps"@, "--id="@, 2);
    lemma_no_prefix("--query-compute-apps"@, "--query-gpu="@, 8);
    lemma_no_prefix("--query-compute-apps"@, "--format="@, 2);
    lemma_no_prefix("--query-compute-apps"@, "--loop-ms="@, 2);
    lemma_no_prefix("--query-compute-apps"@, "--loop="@, 2);
}

proof fn lemma_flag_compute_apps_joined(value: Seq<char>)
    ensures
        flag_of("--query-compute-apps="@ + value) == (Flag::ComputeApps, None::<Seq<char>>),
{
    let arg = "--query-compute-apps="@ + value;
    reveal_strlit("--query-compute-apps=");
    reveal_strlit("-L");
    reveal_strlit("--list-gpus");
    reveal_strlit("-q");
    reveal_strlit("--query");
    reveal_strlit("--help-query-gpu");
    reveal_strlit("-i");
    reveal_strlit("--id");
    reveal_strlit("--query-gpu");
    reveal_strlit("--format");
    reveal_strlit("-l");
    reveal_strlit("--loop");
    reveal_strlit("-lms");
    reveal_strlit("--loop-ms");
    reveal_strlit("--id=");
    reveal_strlit("--query-gpu=");
    reveal_strlit("--format=");
    reveal_strlit("--loop-ms=");
    reveal_strlit("--loop=");
    lemma_no_prefix(arg, "-L"@, 1);
    lemma_no_prefix(arg, "--list-gpus"@, 2);
    lemma_no_prefix(arg, "-q"@, 1);
    assert(arg.len() != "--query"@.len());
    lemma_no_prefix(arg, "--help-query-gpu"@, 2);
    lemma_no_prefix(arg, "-i"@, 1);
    lemma_no_prefix(arg, "--id"@, 2);
    lemma_no_prefix(arg, "--query-gpu"@, 8);
    lemma_no_prefix(arg, "--format"@, 2);
    lemma_no_prefix(arg, "-l"@, 1);
    lemma_no_prefix(arg, "--loop"@, 2);
    lemma_no_prefix(arg, "-lms"@, 1);
    lemma_no_prefix(arg, "--loop-ms"@, 2);
    lemma_no_prefix(arg, "--id="@, 2);
    lemma_no_prefix(arg, "--query-gpu="@, 8);
    lemma_no_prefix(arg, "--format="@, 2);
    lemma_no_prefix(arg, "--loop-ms="@, 2);
    lemma_no_prefix(arg, "--loop="@, 2);
    lemma_prefix_of(arg, "--query-compute-apps="@, value);
}

/// Which arguments are the flags that take no value.
pub proof fn flags_without_a_value(value: Seq<char>)
    ensures
        flag_of("-L"@) == (Flag::List, None::<Seq<char>>),
        flag_of("--list-gpus"@) == (Flag::List, None::<Seq<char>>),
        flag_of("-q"@) == (Flag::Detail, None::<Seq<char>>),
        flag_of("--query"@) == (Flag::Detail, None::<Seq<char>>),
        flag_of("--help-query-gpu"@) == (Flag::HelpQuery, None::<Seq<char>>),
        flag_of("-h"@) == (Flag::Help, None::<Seq<char>>),
        flag_of("--help"@) == (Flag::Help, None::<Seq<char>>),
        flag_of("--version"@) == (Flag::Version, None::<Seq<char>>),
        flag_of("--query-compute-apps"@) == (Flag::ComputeApps, None::<Seq<char>>),
        flag_of("--query-compute-apps="@ + value) == (Flag::ComputeApps, None::<Seq<char>>),
{
    lemma_flag_detail();
    lemma_flag_detail_long();
    lemma_flag_help_query();
    lemma_flag_help();
    lemma_flag_help_long();
    lemma_flag_version();
    lemma_flag_compute_apps();
    lemma_flag_compute_apps_joined(value);
}

/// An argument that does not begin with a hyphen, or that has one hyphen and no letter of a flag
/// behind it, is no flag.
pub proof fn other_arguments_are_no_flags(arg: Seq<char>)
    requires
        arg.len() > 1 && arg[0] == '-' ==> arg[1] != '-' && arg[1] != 'L' && arg[1] != 'q' && arg[1]
            != 'i' && arg[1] != 'l' && arg[1] != 'h',
    ensures
        flag_of(arg) == (Flag::Unknown, None::<Seq<char>>),
{
    reveal_strlit("-L");
    reveal_strlit("--list-gpus");
    reveal_strlit("-q");
    reveal_strlit("--query");
    reveal_strlit("--help-query-gpu");
    reveal_strlit("-i");
    reveal_strlit("--id");
    reveal_strlit("--query-gpu");
    reveal_strlit("--format");
    reveal_strlit("-l");
    reveal_strlit("--loop");
    reveal_strlit("-lms");
    reveal_strlit("--loop-ms");
    reveal_strlit("--id=");
    reveal_strlit("--query-gpu=");
    reveal_strlit("--format=");
    reveal_strlit("--loop-ms=");
    reveal_strlit("--loop=");
    reveal_strlit("--query-compute-apps");
    reveal_strlit("--query-compute-apps=");
    reveal_strlit("-h");
    reveal_strlit("--help");
    reveal_strlit("--version");
    assert forall|prefix: Seq<char>| prefix.len() > 1 && #[trigger] has_prefix(arg, prefix) implies
        arg.len() > 1 && arg[0] == prefix[0] && arg[1] == prefix[1] by {
        assert(arg.take(prefix.len() as int)[0] == prefix[0]);
        assert(arg.take(prefix.len() as int)[1] == prefix[1]);
    }
}

// ---------------------------------------------------------------------------
// Laws on what one more argument changes
// ---------------------------------------------------------------------------
/// A command line that is accepted and not ended by one for help or for the version.
pub open spec fn goes_on(args: Seq<Seq<char>>, o: OptionsView) -> bool {
    parsed(args) == Ok::<OptionsView, Seq<char>>(o) && o.mode != Mode::Help && o.mode
        != Mode::Version
}

/// What has been asked for when the arguments `rest` are reached.
proof fn lemma_appended(
    args: Seq<Seq<char>>,
    rest: Seq<Seq<char>>,
    i: int,
    draft: Draft,
) -> (d: Draft)
    requires
        0 <= i <= args.len(),
        is_open_draft(draft),
        rest.len() > 0,
        !only_digits(rest[0]),
        parsed_from(args, i, draft) matches Ok(o) && o.mode != Mode::Help && o.mode
            != Mode::Version,
    ensures
        is_open_draft(d),
        parsed_from(args + rest, i, draft) == parsed_from(args + rest, args.len() as int, d),
        completed(d) == parsed_from(args, i, draft),
    decreases args.len() - i,
{
    if i == args.len() {
        draft
    } else {
        let (flag, carried) = flag_of(args[i]);
        assert((args + rest)[i] == args[i]);
        assert((args + rest)[args.len() as int] == rest[0]);
        match flag {
            Flag::List => lemma_appended(args, rest, i + 1, with_mode(draft, Mode::List)),
            Flag::Detail => lemma_appended(args, rest, i + 1, with_mode(draft, Mode::Detail)),
            Flag::HelpQuery => lemma_appended(args, rest, i + 1, with_mode(draft, Mode::HelpQuery)),
            Flag::ComputeApps | Flag::Help | Flag::Version | Flag::Unknown => draft,
            _ => {
                let value = value_of(args, i, flag, carried)->Ok_0;
                lemma_value_keeps_draft_open(draft, flag, value);
                let next = with_value(draft, flag, value)->Ok_0;
                if i + 1 < args.len() {
                    assert((args + rest)[i + 1] == args[i + 1]);
                }
                assert(value_of(args + rest, i, flag, carried) == value_of(args, i, flag, carried));
                assert(index_behind(args + rest, i, flag, carried) == index_behind(
                    args,
                    i,
                    flag,
                    carried,
                ));
                lemma_appended(args, rest, index_behind(args, i, flag, carried), next)
            },
        }
    }
}

/// What is asked for in the end is what has been asked for, but for the CSV options.
proof fn lemma_completed(d: Draft, o: OptionsView)
    requires
        is_open_draft(d),
        completed(d) == Ok::<OptionsView, Seq<char>>(o),
    ensures
        o == (OptionsView { noheader: o.noheader, nounits: o.nounits, ..d.options }),
        o.mode == Mode::Query <==> d.format is Some,
        o.mode != Mode::Query ==> o == d.options,
{
    if let Some(format) = d.format {
        lemma_pieces_not_empty(format, ',');
        csv_options_are_those_named(d.options, pieces(format, ','), 1);
    }
}

proof fn lemma_one_more(args: Seq<Seq<char>>, arg: Seq<char>, o: OptionsView) -> (d: Draft)
    requires
        goes_on(args, o),
        !only_digits(arg),
    ensures
        is_open_draft(d),
        completed(d) == Ok::<OptionsView, Seq<char>>(o),
        parsed(args.push(arg)) == parsed_from(args.push(arg), args.len() as int, d),
        o == (OptionsView { noheader: o.noheader, nounits: o.nounits, ..d.options }),
        o.mode == Mode::Query <==> d.format is Some,
        o.mode != Mode::Query ==> o == d.options,
{
    let rest = seq![arg];
    assert(args + rest =~= args.push(arg));
    let d = lemma_appended(args, rest, 0, blank());
    lemma_completed(d, o);
    d
}

/// A draft that asks for the same report of other devices, or at other times, is completed alike.
proof fn lemma_completed_alike(a: Draft, b: Draft, o: OptionsView)
    requires
        completed(a) == Ok::<OptionsView, Seq<char>>(o),
        a.format == b.format,
        b.options == (OptionsView {
            id: b.options.id,
            interval: b.options.interval,
            ..a.options
        }),
    ensures
        completed(b) == Ok::<OptionsView, Seq<char>>(
            OptionsView { id: b.options.id, interval: b.options.interval, ..o },
        ),
{
    if let Some(format) = a.format {
        lemma_pieces_not_empty(format, ',');
        csv_options_are_those_named(a.options, pieces(format, ','), 1);
        csv_options_are_those_named(b.options, pieces(format, ','), 1);
    }
}

/// An empty command line asks for the table of all devices, once.
pub proof fn an_empty_command_line_asks_for_the_table()
    ensures
        parsed(Seq::empty()) matches Ok(o) && o.mode == Mode::Table && o.id is None && o.interval is None
            && o.fields.len() == 0 && !o.noheader && !o.nounits,
{
}

/// A text that begins with a hyphen is no number.
proof fn lemma_hyphen(arg: Seq<char>)
    requires
        arg.len() > 0,
        arg[0] == '-',
    ensures
        !only_digits(arg),
{
    assert(!is_digit(arg[0]));
}

/// One more id: that device is asked for, in place of any asked for before; nothing else changes.
pub proof fn the_last_id_counts(args: Seq<Seq<char>>, id: Seq<char>, o: OptionsView)
    requires
        goes_on(args, o),
    ensures
        parsed(args.push("--id="@ + id)) == Ok::<OptionsView, Seq<char>>(
            OptionsView { id: Some(id), ..o },
        ),
{
    reveal_strlit("--id=");
    let arg = "--id="@ + id;
    lemma_hyphen(arg);
    let d = lemma_one_more(args, arg, o);
    flags_have_two_forms(id);
    let all = args.push(arg);
    let n = args.len() as int;
    assert(all[n] == arg);
    let next = Draft { options: OptionsView { id: Some(id), ..d.options }, ..d };
    assert(parsed_from(all, n, d) == parsed_from(all, n + 1, next));
    lemma_completed_alike(d, next, o);
}

proof fn lemma_interval_taken(
    args: Seq<Seq<char>>,
    arg: Seq<char>,
    value: Seq<char>,
    millis: bool,
    o: OptionsView,
)
    requires
        goes_on(args, o),
        arg.len() > 0,
        arg[0] == '-',
        flag_of(arg) == (
            if millis {
                Flag::LoopMs
            } else {
                Flag::Loop
            },
            Some(value),
        ) || (arg == "-l"@ || arg == "--loop"@) && value == "5"@ && !millis && flag_of(arg) == (
            Flag::Loop,
            None::<Seq<char>>,
        ),
    ensures
        parsed(args.push(arg)) == match interval_of(value, millis) {
            Ok(t) => Ok::<OptionsView, Seq<char>>(OptionsView { interval: Some(t), ..o }),
            Err(message) => Err(message),
        },
{
    lemma_hyphen(arg);
    let d = lemma_one_more(args, arg, o);
    let all = args.push(arg);
    let n = args.len() as int;
    assert(all[n] == arg);
    if let Ok(t) = interval_of(value, millis) {
        let next = Draft { options: OptionsView { interval: Some(t), ..d.options }, ..d };
        assert(parsed_from(all, n, d) == parsed_from(all, n + 1, next));
        lemma_completed_alike(d, next, o);
    }
}

/// One more time between reports: it is the one that counts, in seconds or in milliseconds, and
/// nothing else changes. What is no number, or nought, is refused.
pub proof fn the_last_time_counts(
    args: Seq<Seq<char>>,
    value: Seq<char>,
    millis: bool,
    o: OptionsView,
)
    requires
        goes_on(args, o),
    ensures
        ({
            let arg = if millis {
                "--loop-ms="@ + value
            } else {
                "--loop="@ + value
            };
            match number(value, 10, u64::MAX as nat) {
                Some(n) => if n > 0 {
                    parsed(args.push(arg)) matches Ok(r) && r == (OptionsView {
                        interval: r.interval,
                        ..o
                    }) && (r.interval matches Some(t) && is_normal(t) && t.secs * 1_000_000_000
                        + t.nanos == n * if millis {
                        1_000_000int
                    } else {
                        1_000_000_000int
                    })
                } else {
                    parsed(args.push(arg)) == Err::<OptionsView, Seq<char>>(
                        "interval must be greater than zero"@,
                    )
                },
                None => parsed(args.push(arg)) == Err::<OptionsView, Seq<char>>(
                    "invalid interval: "@ + value,
                ),
            }
        }),
{
    reveal_strlit("--loop=");
    reveal_strlit("--loop-ms=");
    flags_have_two_forms(value);
    interval_is_as_long_as_asked(value, millis);
    if millis {
        lemma_interval_taken(args, "--loop-ms="@ + value, value, millis, o);
    } else {
        lemma_interval_taken(args, "--loop="@ + value, value, millis, o);
    }
}

/// A loop at the end without a time waits for five seconds.
pub proof fn a_loop_without_a_time_waits_for_five_seconds(args: Seq<Seq<char>>, o: OptionsView)
    requires
        goes_on(args, o),
    ensures
        ({
            let r = OptionsView { interval: Some(Interval { secs: 5, nanos: 0 }), ..o };
            &&& parsed(args.push("-l"@)) == Ok::<OptionsView, Seq<char>>(r)
            &&& parsed(args.push("--loop"@)) == Ok::<OptionsView, Seq<char>>(r)
        }),
{
    reveal_strlit("-l");
    reveal_strlit("--loop");
    flags_have_two_forms(Seq::empty());
    lemma_interval_taken(args, "-l"@, "5"@, false, o);
    lemma_interval_taken(args, "--loop"@, "5"@, false, o);
    assert("5"@ =~= decimal_of(5)) by {
        reveal_strlit("5");
    }
    decimal_reads_back(5, u64::MAX as nat);
}

proof fn lemma_mode_taken(args: Seq<Seq<char>>, arg: Seq<char>, mode: Mode, o: OptionsView)
    requires
        goes_on(args, o),
        arg.len() > 0,
        arg[0] == '-',
        flag_of(arg) == (Flag::List, None::<Seq<char>>) && mode == Mode::List || flag_of(arg) == (
            Flag::Detail,
            None::<Seq<char>>,
        ) && mode == Mode::Detail || flag_of(arg) == (Flag::HelpQuery, None::<Seq<char>>) && mode
            == Mode::HelpQuery,
    ensures
        parsed(args.push(arg)) == if o.mode == Mode::Query {
            Err::<OptionsView, Seq<char>>("--format requires --query-gpu"@)
        } else {
            Ok::<OptionsView, Seq<char>>(OptionsView { mode, ..o })
        },
{
    lemma_hyphen(arg);
    let d = lemma_one_more(args, arg, o);
    let all = args.push(arg);
    let n = args.len() as int;
    assert(all[n] == arg);
    assert(parsed_from(all, n, d) == parsed_from(all, n + 1, with_mode(d, mode)));
}

/// Which report each flag asks for, in place of what was asked for before; a format without a query
/// is refused.
pub proof fn the_last_report_counts(args: Seq<Seq<char>>, o: OptionsView)
    requires
        goes_on(args, o),
        o.mode != Mode::Query,
    ensures
        parsed(args.push("-L"@)) == Ok::<OptionsView, Seq<char>>(
            OptionsView { mode: Mode::List, ..o },
        ),
        parsed(args.push("--list-gpus"@)) == Ok::<OptionsView, Seq<char>>(
            OptionsView { mode: Mode::List, ..o },
        ),
        parsed(args.push("-q"@)) == Ok::<OptionsView, Seq<char>>(
            OptionsView { mode: Mode::Detail, ..o },
        ),
        parsed(args.push("--query"@)) == Ok::<OptionsView, Seq<char>>(
            OptionsView { mode: Mode::Detail, ..o },
        ),
        parsed(args.push("--help-query-gpu"@)) == Ok::<OptionsView, Seq<char>>(
            OptionsView { mode: Mode::HelpQuery, ..o },
        ),
{
    reveal_strlit("-L");
    reveal_strlit("--list-gpus");
    reveal_strlit("-q");
    reveal_strlit("--query");
    reveal_strlit("--help-query-gpu");
    flags_without_a_value(Seq::empty());
    lemma_mode_taken(args, "-L"@, Mode::List, o);
    lemma_mode_taken(args, "--list-gpus"@, Mode::List, o);
    lemma_mode_taken(args, "-q"@, Mode::Detail, o);
    lemma_mode_taken(args, "--query"@, Mode::Detail, o);
    lemma_mode_taken(args, "--help-query-gpu"@, Mode::HelpQuery, o);
}

/// Another report behind a query is refused: the query came with a format.
pub proof fn no_other_report_has_a_format(args: Seq<Seq<char>>, o: OptionsView)
    requires
        goes_on(args, o),
        o.mode == Mode::Query,
    ensures
        ({
            let refused = Err::<OptionsView, Seq<char>>("--format requires --query-gpu"@);
            &&& parsed(args.push("-L"@)) == refused
            &&& parsed(args.push("--list-gpus"@)) == refused
            &&& parsed(args.push("-q"@)) == refused
            &&& parsed(args.push("--query"@)) == refused
            &&& parsed(args.push("--help-query-gpu"@)) == refused
        }),
{
    reveal_strlit("-L");
    reveal_strlit("--list-gpus");
    reveal_strlit("-q");
    reveal_strlit("--query");
    reveal_strlit("--help-query-gpu");
    flags_without_a_value(Seq::empty());
    lemma_mode_taken(args, "-L"@, Mode::List, o);
    lemma_mode_taken(args, "--list-gpus"@, Mode::List, o);
    lemma_mode_taken(args, "-q"@, Mode::Detail, o);
    lemma_mode_taken(args, "--query"@, Mode::Detail, o);
    lemma_mode_taken(args, "--help-query-gpu"@, Mode::HelpQuery, o);
}

/// Help and version are what is shown wherever they are asked for.
pub proof fn help_and_version_are_shown(args: Seq<Seq<char>>, o: OptionsView)
    requires
        goes_on(args, o),
    ensures
        ({
            let plain = OptionsView { noheader: false, nounits: false, ..o };
            let help = Ok::<OptionsView, Seq<char>>(OptionsView { mode: Mode::Help, ..plain });
            let version = Ok::<OptionsView, Seq<char>>(
                OptionsView { mode: Mode::Version, ..plain },
            );
            &&& parsed(args.push("-h"@)) == help
            &&& parsed(args.push("--help"@)) == help
            &&& parsed(args.push("--version"@)) == version
        }),
{
    reveal_strlit("-h");
    reveal_strlit("--help");
    reveal_strlit("--version");
    flags_without_a_value(Seq::empty());
    lemma_hyphen("-h"@);
    lemma_hyphen("--help"@);
    lemma_hyphen("--version"@);
    let a = lemma_one_more(args, "-h"@, o);
    let b = lemma_one_more(args, "--help"@, o);
    let c = lemma_one_more(args, "--version"@, o);
    let n = args.len() as int;
    assert(args.push("-h"@)[n] == "-h"@);
    assert(args.push("--help"@)[n] == "--help"@);
    assert(args.push("--version"@)[n] == "--version"@);
}

/// What is refused at once, and the complaint: an argument that is no flag, a question for the
/// memory of computations, and a flag without its value at the end.
pub proof fn other_arguments_are_refused(
    args: Seq<Seq<char>>,
    arg: Seq<char>,
    value: Seq<char>,
    o: OptionsView,
)
    requires
        goes_on(args, o),
        !only_digits(arg),
        flag_of(arg).0 == Flag::Unknown,
    ensures
        parsed(args.push(arg)) == Err::<OptionsView, Seq<char>>("unknown option: "@ + arg),
        parsed(args.push("--query-compute-apps"@)) == Err::<OptionsView, Seq<char>>(
            "per-process compute accounting is not available on legacy Radeon GPUs"@,
        ),
        parsed(args.push("--query-compute-apps="@ + value)) == Err::<OptionsView, Seq<char>>(
            "per-process compute accounting is not available on legacy Radeon GPUs"@,
        ),
{
    reveal_strlit("--query-compute-apps");
    reveal_strlit("--query-compute-apps=");
    flags_without_a_value(value);
    let n = args.len() as int;
    let a = lemma_one_more(args, arg, o);
    assert(args.push(arg)[n] == arg);
    let bare = "--query-compute-apps"@;
    lemma_hyphen(bare);
    let b = lemma_one_more(args, bare, o);
    assert(args.push(bare)[n] == bare);
    let both = "--query-compute-apps="@ + value;
    lemma_hyphen(both);
    let c = lemma_one_more(args, both, o);
    assert(args.push(both)[n] == both);
}

/// A flag that needs a value is refused at the end of the command line.
pub proof fn flags_need_their_values(args: Seq<Seq<char>>, flag: Seq<char>, o: OptionsView)
    requires
        goes_on(args, o),
        flag == "-i"@ || flag == "--id"@ || flag == "--query-gpu"@ || flag == "--format"@ || flag
            == "-lms"@ || flag == "--loop-ms"@,
    ensures
        parsed(args.push(flag)) == Err::<OptionsView, Seq<char>>(flag + " requires a value"@),
{
    flags_have_two_forms(Seq::empty());
    lemma_flags_begin_with_a_dash(flag);
    let d = lemma_one_more(args, flag, o);
    assert(args.push(flag)[args.len() as int] == flag);
}

/// Texts without a comma.
pub open spec fn have_no_comma(names: Seq<Seq<char>>) -> bool {
    forall|i: int, k: int|
        0 <= i < names.len() && 0 <= k < names[i].len() ==> #[trigger] names[i][k] != ','
}

/// The argument that asks for the fields `names`.
pub open spec fn query_argument(names: Seq<Seq<char>>) -> Seq<char> {
    "--query-gpu="@ + joined(names, seq![','])
}

/// The argument that asks for the format `parts`.
pub open spec fn format_argument(parts: Seq<Seq<char>>) -> Seq<char> {
    "--format="@ + joined(parts, seq![','])
}

proof fn lemma_query_argument(names: Seq<Seq<char>>)
    requires
        names.len() > 0,
        have_no_comma(names),
    ensures
        !only_digits(query_argument(names)),
        flag_of(query_argument(names)) == (Flag::QueryGpu, Some(joined(names, seq![',']))),
        pieces(joined(names, seq![',']), ',') == names,
{
    reveal_strlit("--query-gpu=");
    flags_have_two_forms(joined(names, seq![',']));
    lemma_hyphen(query_argument(names));
    joined_pieces_are_the_pieces(names, ',');
}

proof fn lemma_format_argument(parts: Seq<Seq<char>>)
    requires
        parts.len() > 0,
        have_no_comma(parts),
    ensures
        !only_digits(format_argument(parts)),
        flag_of(format_argument(parts)) == (Flag::Format, Some(joined(parts, seq![',']))),
        pieces(joined(parts, seq![',']), ',') == parts,
{
    reveal_strlit("--format=");
    flags_have_two_forms(joined(parts, seq![',']));
    lemma_hyphen(format_argument(parts));
    joined_pieces_are_the_pieces(parts, ',');
}

/// The parts of a CSV format with these options.
pub open spec fn is_csv_format(parts: Seq<Seq<char>>) -> bool {
    &&& parts.len() > 0
    &&& parts[0] == "csv"@
    &&& forall|k: int|
        1 <= k < parts.len() ==> #[trigger] parts[k] == "noheader"@ || parts[k] == "nounits"@
}

proof fn lemma_csv_format(parts: Seq<Seq<char>>, options: OptionsView)
    requires
        is_csv_format(parts),
        !options.noheader,
        !options.nounits,
    ensures
        have_no_comma(parts),
        with_csv_options(options, parts, 1) == Ok::<OptionsView, Seq<char>>(
            OptionsView {
                noheader: parts.contains("noheader"@),
                nounits: parts.contains("nounits"@),
                ..options
            },
        ),
{
    reveal_strlit("csv");
    reveal_strlit("noheader");
    reveal_strlit("nounits");
    csv_options_are_those_named(options, parts, 1);
    assert("csv"@.len() == 3 && "noheader"@.len() == 8 && "nounits"@.len() == 7);
    assert forall|i: int, k: int| 0 <= i < parts.len() && 0 <= k < parts[i].len() implies
        #[trigger] parts[i][k] != ',' by {
        assert(i == 0 || parts[i] == "noheader"@ || parts[i] == "nounits"@);
    }
    assert(parts.contains("noheader"@) <==> exists|k: int|
        1 <= k < parts.len() && #[trigger] parts[k] == "noheader"@);
    assert(parts.contains("nounits"@) <==> exists|k: int|
        1 <= k < parts.len() && #[trigger] parts[k] == "nounits"@);
}

#[verifier::rlimit(40)]
proof fn lemma_query_first(
    args: Seq<Seq<char>>,
    names: Seq<Seq<char>>,
    parts: Seq<Seq<char>>,
    o: OptionsView,
)
    requires
        goes_on(args, o),
        o.mode != Mode::Query,
        names.len() > 0,
        have_no_comma(names),
        have_no_comma(parts),
        forall|i: int| 0 <= i < names.len() ==> field_names().contains(#[trigger] names[i]),
        is_csv_format(parts),
    ensures
        parsed(args + seq![query_argument(names), format_argument(parts)]) == Ok::<
            OptionsView,
            Seq<char>,
        >(
            OptionsView {
                mode: Mode::Query,
                fields: names,
                noheader: parts.contains("noheader"@),
                nounits: parts.contains("nounits"@),
                ..o
            },
        ),
{
    let query = query_argument(names);
    let format = format_argument(parts);
    let n = args.len() as int;
    lemma_query_argument(names);
    lemma_format_argument(parts);
    let rest = seq![query, format];
    let all = args + rest;
    let d = lemma_appended(args, rest, 0, blank());
    lemma_completed(d, o);
    assert(all[n] == rest[0] && all[n + 1] == rest[1]);
    let wanted = OptionsView { mode: Mode::Query, fields: names, ..o };
    let end = Draft { options: wanted, format: Some(joined(parts, seq![','])) };
    lemma_csv_format(parts, wanted);
    assert(completed(end) == with_csv_options(wanted, parts, 1));
    let next = Draft { options: wanted, format: None };
    assert(parsed_from(all, n, d) == parsed_from(all, n + 1, next));
    assert(parsed_from(all, n + 1, next) == parsed_from(all, n + 2, end));
}

#[verifier::rlimit(40)]
proof fn lemma_format_first(
    args: Seq<Seq<char>>,
    names: Seq<Seq<char>>,
    parts: Seq<Seq<char>>,
    o: OptionsView,
)
    requires
        goes_on(args, o),
        o.mode != Mode::Query,
        names.len() > 0,
        have_no_comma(names),
        have_no_comma(parts),
        forall|i: int| 0 <= i < names.len() ==> field_names().contains(#[trigger] names[i]),
        is_csv_format(parts),
    ensures
        parsed(args + seq![format_argument(parts), query_argument(names)]) == Ok::<
            OptionsView,
            Seq<char>,
        >(
            OptionsView {
                mode: Mode::Query,
                fields: names,
                noheader: parts.contains("noheader"@),
                nounits: parts.contains("nounits"@),
                ..o
            },
        ),
{
    let query = query_argument(names);
    let format = format_argument(parts);
    let n = args.len() as int;
    lemma_query_argument(names);
    lemma_format_argument(parts);
    let rest = seq![format, query];
    let all = args + rest;
    let d = lemma_appended(args, rest, 0, blank());
    lemma_completed(d, o);
    assert(all[n] == rest[0] && all[n + 1] == rest[1]);
    let wanted = OptionsView { mode: Mode::Query, fields: names, ..o };
    let end = Draft { options: wanted, format: Some(joined(parts, seq![','])) };
    lemma_csv_format(parts, wanted);
    assert(completed(end) == with_csv_options(wanted, parts, 1));
    let next = Draft { format: Some(joined(parts, seq![','])), ..d };
    assert(parsed_from(all, n, d) == parsed_from(all, n + 1, next));
    assert(parsed_from(all, n + 1, next) == parsed_from(all, n + 2, end));
}

/// A query for known fields and a CSV format, in either order: those fields are asked for, in that
/// order, with the names of the fields and the units unless the format leaves them out; nothing
/// else changes.
pub proof fn a_query_asks_for_its_fields(
    args: Seq<Seq<char>>,
    names: Seq<Seq<char>>,
    parts: Seq<Seq<char>>,
    o: OptionsView,
)
    requires
        goes_on(args, o),
        o.mode != Mode::Query,
        names.len() > 0,
        have_no_comma(names),
        forall|i: int| 0 <= i < names.len() ==> field_names().contains(#[trigger] names[i]),
        is_csv_format(parts),
    ensures
        ({
            let asked = Ok::<OptionsView, Seq<char>>(
                OptionsView {
                    mode: Mode::Query,
                    fields: names,
                    noheader: parts.contains("noheader"@),
                    nounits: parts.contains("nounits"@),
                    ..o
                },
            );
            let query = query_argument(names);
            let format = format_argument(parts);
            &&& parsed(args + seq![query, format]) == asked
            &&& parsed(args + seq![format, query]) == asked
        }),
{
    lemma_csv_format(parts, OptionsView { noheader: false, nounits: false, ..o });
    lemma_query_first(args, names, parts, o);
    lemma_format_first(args, names, parts, o);
}

/// One more query behind a query: its fields are those that are asked for. Without a format, or
/// with a field that is not known, it is refused.
#[verifier::rlimit(40)]
pub proof fn the_last_query_counts(args: Seq<Seq<char>>, names: Seq<Seq<char>>, o: OptionsView)
    requires
        goes_on(args, o),
        names.len() > 0,
        have_no_comma(names),
    ensures
        parsed(args.push(query_argument(names))) == if exists|i: int|
            0 <= i < names.len() && !field_names().contains(#[trigger] names[i]) {
            Err::<OptionsView, Seq<char>>("unknown query field; use --help-query-gpu"@)
        } else if o.mode == Mode::Query {
            Ok(OptionsView { fields: names, ..o })
        } else {
            Err("--query-gpu requires --format=csv"@)
        },
{
    let query = query_argument(names);
    let n = args.len() as int;
    lemma_query_argument(names);
    let d = lemma_one_more(args, query, o);
    assert(args.push(query)[n] == query);
    let next = Draft {
        options: OptionsView { mode: Mode::Query, fields: names, ..d.options },
        ..d
    };
    assert(parsed_from(args.push(query), n, d) == parsed_from(args.push(query), n + 1, next));
    if let Some(format) = d.format {
        lemma_pieces_not_empty(format, ',');
        csv_options_are_those_named(d.options, pieces(format, ','), 1);
        csv_options_are_those_named(next.options, pieces(format, ','), 1);
    }
}

proof fn lemma_format_taken(args: Seq<Seq<char>>, parts: Seq<Seq<char>>, o: OptionsView) -> (d: Draft)
    requires
        goes_on(args, o),
        parts.len() > 0,
        have_no_comma(parts),
    ensures
        is_open_draft(d),
        o == (OptionsView { noheader: o.noheader, nounits: o.nounits, ..d.options }),
        completed(d) == Ok::<OptionsView, Seq<char>>(o),
        parsed(args.push(format_argument(parts))) == completed(
            Draft { format: Some(joined(parts, seq![','])), ..d },
        ),
        pieces(joined(parts, seq![',']), ',') == parts,
{
    let format = format_argument(parts);
    let all = args.push(format);
    let n = args.len() as int;
    lemma_format_argument(parts);
    let d = lemma_one_more(args, format, o);
    assert(all[n] == format);
    let next = Draft { format: Some(joined(parts, seq![','])), ..d };
    assert(parsed_from(all, n, d) == parsed_from(all, n + 1, next));
    d
}

/// One more format behind a query: its options are those that count. A format that is not CSV is
/// refused, and so is one without a query.
pub proof fn the_last_format_counts(args: Seq<Seq<char>>, parts: Seq<Seq<char>>, o: OptionsView)
    requires
        goes_on(args, o),
        parts.len() > 0,
        have_no_comma(parts),
        o.mode == Mode::Query && parts[0] == "csv"@ ==> is_csv_format(parts),
    ensures
        parsed(args.push(format_argument(parts))) == if o.mode != Mode::Query {
            Err::<OptionsView, Seq<char>>("--format requires --query-gpu"@)
        } else if parts[0] != "csv"@ {
            Err("only --format=csv is supported"@)
        } else {
            Ok(
                OptionsView {
                    noheader: parts.contains("noheader"@),
                    nounits: parts.contains("nounits"@),
                    ..o
                },
            )
        },
{
    let d = lemma_format_taken(args, parts, o);
    if o.mode == Mode::Query && is_csv_format(parts) {
        lemma_csv_format(parts, d.options);
    }
}

/// A CSV format with another option is refused, and the complaint names that option.
pub proof fn other_csv_options_are_refused(
    args: Seq<Seq<char>>,
    parts: Seq<Seq<char>>,
    o: OptionsView,
)
    requires
        goes_on(args, o),
        o.mode == Mode::Query,
        parts.len() > 0,
        have_no_comma(parts),
        parts[0] == "csv"@,
        !is_csv_format(parts),
    ensures
        exists|k: int|
            1 <= k < parts.len() && #[trigger] parts[k] != "noheader"@ && parts[k] != "nounits"@
                && parsed(args.push(format_argument(parts))) == Err::<OptionsView, Seq<char>>(
                "unknown CSV format option: "@ + parts[k],
            ),
{
    let d = lemma_format_taken(args, parts, o);
    lemma_first_complaint(parts, d.options, 1);
    let whole = completed(Draft { format: Some(joined(parts, seq![','])), ..d });
    assert(whole == with_csv_options(d.options, parts, 1));
}

/// The first part that is no CSV option is the one that is complained of.
proof fn lemma_first_complaint(parts: Seq<Seq<char>>, options: OptionsView, i: int)
    requires
        0 <= i,
        exists|k: int|
            i <= k < parts.len() && #[trigger] parts[k] != "noheader"@ && parts[k] != "nounits"@,
    ensures
        exists|k: int|
            i <= k < parts.len() && #[trigger] parts[k] != "noheader"@ && parts[k] != "nounits"@
                && with_csv_options(options, parts, i) == Err::<OptionsView, Seq<char>>(
                "unknown CSV format option: "@ + parts[k],
            ),
    decreases parts.len() - i,
{
    let k = choose|k: int|
        i <= k < parts.len() && #[trigger] parts[k] != "noheader"@ && parts[k] != "nounits"@;
    if parts[i] == "noheader"@ {
        assert(k >= i + 1 && parts[k] != "noheader"@);
        lemma_first_complaint(parts, OptionsView { noheader: true, ..options }, i + 1);
    } else if parts[i] == "nounits"@ {
        assert(k >= i + 1 && parts[k] != "nounits"@);
        lemma_first_complaint(parts, OptionsView { nounits: true, ..options }, i + 1);
    }
}

/// What is said of options is what they hold, field by field.
pub proof fn options_are_seen_by_their_fields(o: Options, i: int)
    ensures
        o@.mode == o.mode,
        o@.id is Some <==> o.id is Some,
        o.id matches Some(id) ==> o@.id == Some(id@),
        o@.fields.len() == o.fields@.len(),
        0 <= i < o.fields@.len() ==> o@.fields[i] == o.fields@[i]@,
        o@.noheader == o.noheader,
        o@.nounits == o.nounits,
        o@.interval == o.interval,
{
}

/// What is said of results is what they hold.
pub proof fn results_are_seen_by_what_they_hold(o: Options, s: String, flag: Flag)
    ensures
        options_read(Ok(o)) == Ok::<OptionsView, Seq<char>>(o@),
        options_read(Err(s)) == Err::<OptionsView, Seq<char>>(s@),
        read(Ok(s)) == Ok::<Seq<char>, Seq<char>>(s@),
        read(Err(s)) == Err::<Seq<char>, Seq<char>>(s@),
        flag_view((flag, Some(s))) == (flag, Some(s@)),
        flag_view((flag, None)) == (flag, None::<Seq<char>>),
{
}

} // verus!
