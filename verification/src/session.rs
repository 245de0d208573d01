//! A run of the program: which devices are chosen, what is shown of them, and when it ends.
use crate::csv::csv_values;
use crate::device::{Device, DeviceView, Metrics, MetricsView};
use crate::layout::{stands_at, title_room};
use crate::number::{
    decimal, decimal_of, is_decimal, numbers_are_written_in_decimal, signed_decimal,
    signed_decimal_of,
};
use crate::options::{is_normal, nanoseconds, Interval, Mode, Options, OptionsView};
use crate::order::views;
use crate::process::{Process, ProcessView};
use crate::report::{
    block_lines, bus_id, detail, detail_block, detail_count, detail_lines, details_stand_in_order,
    devices_stand_in_order, field_lines, list, list_fields, list_lines, long_bus_id, name_row,
    process_row, processes_stand_in_order, query, query_line_count, query_lines, query_reads_back,
    reading_row, table, table_line_count, table_lines, value_of,
};
use crate::text::{
    has_prefix, in_capitals, joined_pair, optional, same, same_in_capitals, texts, told,
};
use vstd::prelude::*;

verus! {

// ---------------------------------------------------------------------------
// Choosing devices
// ---------------------------------------------------------------------------
/// `id` is the index of `gpu`, or its bus id in the short or the long form, in either case.
pub open spec fn is_called(gpu: DeviceView, id: Seq<char>) -> bool {
    ||| decimal_of(gpu.index as nat) == id
    ||| in_capitals(gpu.bus_id) == in_capitals(id)
    ||| in_capitals(long_bus_id(gpu.bus_id)) == in_capitals(id)
}

/// The devices that `id` calls, in their order.
pub open spec fn called(devices: Seq<DeviceView>, id: Seq<char>) -> Seq<DeviceView>
    decreases devices.len(),
{
    if devices.len() == 0 {
        devices
    } else if is_called(devices.last(), id) {
        called(devices.drop_last(), id).push(devices.last())
    } else {
        called(devices.drop_last(), id)
    }
}

/// The devices that are asked for: those that `id` calls, or all of them; or the complaint that
/// there are none.
pub open spec fn chosen(devices: Seq<DeviceView>, id: Option<Seq<char>>) -> Result<
    Seq<DeviceView>,
    Seq<char>,
> {
    match id {
        None => Ok(devices),
        Some(id) => if called(devices, id).len() == 0 {
            Err("GPU not found: "@ + id)
        } else {
            Ok(called(devices, id))
        },
    }
}

/// A result with the views of its devices or message.
pub open spec fn devices_read(r: Result<Vec<Device>, String>) -> Result<
    Seq<DeviceView>,
    Seq<char>,
> {
    match r {
        Ok(devices) => Ok(views(devices@)),
        Err(message) => Err(message@),
    }
}

fn answers_to(gpu: &Device, id: &str) -> (r: bool)
    ensures
        r == is_called(gpu@, id@),
{
    same(decimal(gpu.index as u64).as_str(), id) || same_in_capitals(gpu.bus_id.as_str(), id)
        || same_in_capitals(bus_id(gpu.bus_id.as_str()).as_str(), id)
}

pub fn selected(devices: Vec<Device>, id: &Option<String>) -> (r: Result<Vec<Device>, String>)
    ensures
        devices_read(r) == chosen(views(devices@), optional(*id)),
{
    let id: &String = match id {
        Some(id) => id,
        None => {
            return Ok(devices);
        },
    };
    let ghost all = views(devices@);
    let mut matches: Vec<Device> = Vec::new();
    assert(views(matches@) =~= called(all.take(0), id@));
    for gpu in it: devices
        invariant
            all == views(it.seq()),
            views(matches@) == called(all.take(it.index()), id@),
    {
        let ghost i = it.index();
        assert(gpu@ == all[i]);
        assert(all.take(i + 1).drop_last() =~= all.take(i));
        if answers_to(&gpu, id.as_str()) {
            let ghost before = views(matches@);
            matches.push(gpu);
            assert(views(matches@) =~= before.push(gpu@));
        }
    }
    assert(all.take(all.len() as int) =~= all);
    if matches.len() == 0 {
        Err(joined_pair("GPU not found: ", id.as_str()))
    } else {
        Ok(matches)
    }
}

// ---------------------------------------------------------------------------
// Texts about the program
// ---------------------------------------------------------------------------
/// The lines that say how the program is used.
pub open spec fn help_lines(version: Seq<char>) -> Seq<Seq<char>> {
    seq![
        "radeon-smi "@ + version + " \u{2014} read-only AMD GPU monitoring"@,
        "Usage: radeon-smi [options]"@,
        "  -L, --list-gpus          List GPUs"@,
        "  -i, --id ID              Select GPU by index or PCI bus ID"@,
        "  -q, --query              Show detailed metrics"@,
        "      --query-gpu=FIELDS   Query comma-separated GPU fields"@,
        "      --format=csv[,noheader][,nounits]"@,
        "      --help-query-gpu     List query fields"@,
        "  -l, --loop[=SEC]         Repeat output (default: 5 seconds)"@,
        "  -lms, --loop-ms=MS       Repeat output in milliseconds"@,
        "  -h, --help               Show this help"@,
        "      --version            Show version"@,
    ]
}

pub fn help(version: &str) -> (r: Vec<String>)
    ensures
        texts(r@) == help_lines(version@),
{
    let mut first: String = joined_pair("radeon-smi ", version);
    first.append(" \u{2014} read-only AMD GPU monitoring");
    let r: Vec<String> = vec![
        first,
        "Usage: radeon-smi [options]".to_owned(),
        "  -L, --list-gpus          List GPUs".to_owned(),
        "  -i, --id ID              Select GPU by index or PCI bus ID".to_owned(),
        "  -q, --query              Show detailed metrics".to_owned(),
        "      --query-gpu=FIELDS   Query comma-separated GPU fields".to_owned(),
        "      --format=csv[,noheader][,nounits]".to_owned(),
        "      --help-query-gpu     List query fields".to_owned(),
        "  -l, --loop[=SEC]         Repeat output (default: 5 seconds)".to_owned(),
        "  -lms, --loop-ms=MS       Repeat output in milliseconds".to_owned(),
        "  -h, --help               Show this help".to_owned(),
        "      --version            Show version".to_owned(),
    ];
    assert(texts(r@) =~= help_lines(version@));
    r
}

// ---------------------------------------------------------------------------
// Time
// ---------------------------------------------------------------------------
/// How long to wait until `interval` is over, if `elapsed` is gone already.
pub fn pause(interval: Interval, elapsed: Interval) -> (r: Interval)
    requires
        is_normal(interval),
        is_normal(elapsed),
    ensures
        is_normal(r),
        nanoseconds(r) == if nanoseconds(interval) > nanoseconds(elapsed) {
            nanoseconds(interval) - nanoseconds(elapsed)
        } else {
            0
        },
{
    if interval.secs < elapsed.secs || (interval.secs == elapsed.secs && interval.nanos
        <= elapsed.nanos) {
        Interval { secs: 0, nanos: 0 }
    } else if interval.nanos >= elapsed.nanos {
        Interval {
            secs: interval.secs - elapsed.secs,
            nanos: interval.nanos - elapsed.nanos,
        }
    } else {
        Interval {
            secs: interval.secs - elapsed.secs - 1,
            nanos: interval.nanos + 1_000_000_000 - elapsed.nanos,
        }
    }
}

/// The time of a report: as the machine writes it, else the seconds since 1970.
pub open spec fn stamp_of(seconds: i64, local: Option<Seq<char>>) -> Seq<char> {
    match local {
        Some(text) => text,
        None => signed_decimal_of(seconds as int),
    }
}

pub fn timestamp(seconds: i64, local: Option<String>) -> (r: String)
    ensures
        r@ == stamp_of(seconds, optional(local)),
{
    match local {
        Some(text) => text,
        None => signed_decimal(seconds),
    }
}

// ---------------------------------------------------------------------------
// A run
// ---------------------------------------------------------------------------
/// How far the run has come.
pub enum Stage {
    /// The devices are being looked for.
    Discovering,
    /// The users of these devices are being looked for.
    Scanning(Vec<Device>),
    /// The readings of these devices are being taken; these are their users.
    Collecting(Vec<Device>, Vec<Process>),
    /// A report is being printed.
    Printing,
    /// The next report is not due yet.
    Waiting,
    /// Nothing is left to do.
    Over,
}

/// What is to be done next.
pub enum Action {
    /// Look for devices.
    Discover,
    /// Look for the users of the devices.
    FindProcesses,
    /// Take the readings of the devices, and the time.
    Collect,
    /// Print these lines, and see them through.
    Print(Vec<String>),
    /// Print an empty line if asked to, and wait until this time since the last discovery is over.
    Wait(bool, Interval),
    /// Print these lines and end.
    Conclude(Vec<String>),
    /// End.
    Finish,
    /// End with this complaint.
    Fail(String),
}

/// What came of it.
pub enum Event {
    /// The devices that were found, or why they could not be looked for.
    Discovered(Result<Vec<Device>, String>),
    /// The users of the devices.
    Processes(Vec<Process>),
    /// The readings of each device, and the time.
    Collected(Vec<Metrics>, String),
    /// The lines have been printed, or why they could not be seen through.
    Printed(Result<(), String>),
    /// The time is over.
    Waited,
}

/// What a `Stage` says, by the views of what it holds.
pub enum StageView {
    Discovering,
    Scanning(Seq<DeviceView>),
    Collecting(Seq<DeviceView>, Seq<ProcessView>),
    Printing,
    Waiting,
    Over,
}

/// What an `Action` says, its texts as character sequences.
pub enum ActionView {
    Discover,
    FindProcesses,
    Collect,
    Print(Seq<Seq<char>>),
    Wait(bool, Interval),
    Conclude(Seq<Seq<char>>),
    Finish,
    Fail(Seq<char>),
}

/// What an `Event` says, by the views of what it holds.
pub enum EventView {
    Discovered(Result<Seq<DeviceView>, Seq<char>>),
    Processes(Seq<ProcessView>),
    Collected(Seq<MetricsView>, Seq<char>),
    Printed(Result<(), Seq<char>>),
    Waited,
}

impl View for Stage {
    type V = StageView;

    open spec fn view(&self) -> StageView {
        match self {
            Stage::Discovering => StageView::Discovering,
            Stage::Scanning(devices) => StageView::Scanning(views(devices@)),
            Stage::Collecting(devices, processes) => StageView::Collecting(
                views(devices@),
                views(processes@),
            ),
            Stage::Printing => StageView::Printing,
            Stage::Waiting => StageView::Waiting,
            Stage::Over => StageView::Over,
        }
    }
}

impl View for Action {
    type V = ActionView;

    open spec fn view(&self) -> ActionView {
        match self {
            Action::Discover => ActionView::Discover,
            Action::FindProcesses => ActionView::FindProcesses,
            Action::Collect => ActionView::Collect,
            Action::Print(lines) => ActionView::Print(texts(lines@)),
            Action::Wait(blank, interval) => ActionView::Wait(*blank, *interval),
            Action::Conclude(lines) => ActionView::Conclude(texts(lines@)),
            Action::Finish => ActionView::Finish,
            Action::Fail(message) => ActionView::Fail(message@),
        }
    }
}

impl View for Event {
    type V = EventView;

    open spec fn view(&self) -> EventView {
        match self {
            Event::Discovered(result) => EventView::Discovered(devices_read(*result)),
            Event::Processes(processes) => EventView::Processes(views(processes@)),
            Event::Collected(metrics, stamp) => EventView::Collected(views(metrics@), stamp@),
            Event::Printed(result) => EventView::Printed(told(*result)),
            Event::Waited => EventView::Waited,
        }
    }
}

/// A run of the program.
pub struct Session {
    pub options: Options,
    pub version: String,
    /// No report has been printed yet.
    pub first: bool,
    pub stage: Stage,
}

/// What a `Session` says, by the views of what it holds.
pub struct SessionView {
    pub options: OptionsView,
    pub version: Seq<char>,
    pub first: bool,
    pub stage: StageView,
}

impl View for Session {
    type V = SessionView;

    open spec fn view(&self) -> SessionView {
        SessionView {
            options: self.options@,
            version: self.version@,
            first: self.first,
            stage: self.stage@,
        }
    }
}

/// A state that a run can be in: while it goes on there is something to show, there is room for
/// the version in the table, and devices have been chosen once the rest is asked of them.
pub open spec fn is_sound(s: SessionView) -> bool {
    &&& s.options.mode == Mode::Table ==> title_room("RADEON-SMI "@ + s.version) >= 0
    &&& match s.stage {
        StageView::Scanning(devices) => devices.len() > 0,
        StageView::Collecting(devices, _) => devices.len() > 0,
        _ => true,
    }
}

/// `event` is one that can come in this state.
pub open spec fn can_come(s: SessionView, event: EventView) -> bool {
    match (s.stage, event) {
        (StageView::Discovering, EventView::Discovered(_)) => true,
        (StageView::Scanning(_), EventView::Processes(_)) => true,
        (StageView::Collecting(devices, _), EventView::Collected(metrics, _)) => metrics.len()
            == devices.len(),
        (StageView::Printing, EventView::Printed(_)) => true,
        (StageView::Waiting, EventView::Waited) => true,
        _ => false,
    }
}

/// Each device with its readings.
pub open spec fn paired(devices: Seq<DeviceView>, metrics: Seq<MetricsView>) -> Seq<
    (DeviceView, MetricsView),
> {
    Seq::new(devices.len(), |i: int| (devices[i], metrics[i]))
}

/// The run is over.
pub open spec fn ended(s: SessionView) -> SessionView {
    SessionView { stage: StageView::Over, ..s }
}

/// How a run begins: the texts about the program are all there is to show, everything else begins
/// with the devices.
pub open spec fn begun(options: OptionsView, version: Seq<char>) -> (SessionView, ActionView) {
    let s = SessionView { options, version, first: true, stage: StageView::Discovering };
    match options.mode {
        Mode::HelpQuery => (ended(s), ActionView::Conclude(field_lines())),
        Mode::Help => (ended(s), ActionView::Conclude(help_lines(version))),
        Mode::Version => (ended(s), ActionView::Conclude(seq!["radeon-smi "@ + version])),
        _ => (s, ActionView::Discover),
    }
}

/// What follows the search for devices: only the table shows who uses them, and a list shows
/// nothing that would have to be read.
pub open spec fn after_discovery(
    s: SessionView,
    result: Result<Seq<DeviceView>, Seq<char>>,
) -> (SessionView, ActionView) {
    match result {
        Err(reason) => (ended(s), ActionView::Fail("cannot discover DRM devices: "@ + reason)),
        Ok(devices) => match chosen(devices, s.options.id) {
            Err(message) => (ended(s), ActionView::Fail(message)),
            Ok(devices) => if devices.len() == 0 {
                (ended(s), ActionView::Fail("no Radeon DRM GPUs found (radeon or amdgpu)"@))
            } else if s.options.mode == Mode::List {
                (
                    SessionView { stage: StageView::Printing, ..s },
                    ActionView::Print(list_lines(devices)),
                )
            } else if s.options.mode == Mode::Table {
                (
                    SessionView { stage: StageView::Scanning(devices), ..s },
                    ActionView::FindProcesses,
                )
            } else {
                (
                    SessionView { stage: StageView::Collecting(devices, Seq::empty()), ..s },
                    ActionView::Collect,
                )
            },
        },
    }
}

/// The lines of a report.
pub open spec fn report_lines(
    s: SessionView,
    devices: Seq<(DeviceView, MetricsView)>,
    processes: Seq<ProcessView>,
    stamp: Seq<char>,
) -> Seq<Seq<char>> {
    if s.options.mode == Mode::Table {
        table_lines(devices, processes, stamp, s.version)
    } else if s.options.mode == Mode::Query {
        query_lines(devices, stamp, s.options, s.first)
    } else {
        detail_lines(devices, stamp)
    }
}

/// What follows a report: the end, or a pause, before which every report but that of a query is
/// followed by an empty line. A report that cannot be seen through ends the run.
pub open spec fn after_print(s: SessionView, result: Result<(), Seq<char>>) -> (
    SessionView,
    ActionView,
) {
    match (result, s.options.interval) {
        (Err(message), _) => (ended(s), ActionView::Fail(message)),
        (Ok(_), None) => (SessionView { first: false, ..ended(s) }, ActionView::Finish),
        (Ok(_), Some(interval)) => (
            SessionView { first: false, stage: StageView::Waiting, ..s },
            ActionView::Wait(s.options.mode != Mode::Query, interval),
        ),
    }
}

/// What follows `event`.
pub open spec fn after_event(s: SessionView, event: EventView) -> (SessionView, ActionView) {
    match (s.stage, event) {
        (StageView::Discovering, EventView::Discovered(result)) => after_discovery(s, result),
        (StageView::Scanning(devices), EventView::Processes(processes)) => (
            SessionView { stage: StageView::Collecting(devices, processes), ..s },
            ActionView::Collect,
        ),
        (StageView::Collecting(devices, processes), EventView::Collected(metrics, stamp)) => (
            SessionView { stage: StageView::Printing, ..s },
            ActionView::Print(report_lines(s, paired(devices, metrics), processes, stamp)),
        ),
        (StageView::Printing, EventView::Printed(result)) => after_print(s, result),
        (StageView::Waiting, EventView::Waited) => (
            SessionView { stage: StageView::Discovering, ..s },
            ActionView::Discover,
        ),
        _ => (s, ActionView::Finish),
    }
}

fn pair_up(devices: Vec<Device>, metrics: Vec<Metrics>) -> (r: Vec<(Device, Metrics)>)
    requires
        devices@.len() == metrics@.len(),
    ensures
        views(r@) == paired(views(devices@), views(metrics@)),
{
    let mut metrics: Vec<Metrics> = metrics;
    let mut devices: Vec<Device> = devices;
    let mut r: Vec<(Device, Metrics)> = Vec::new();
    let ghost whole = paired(views(devices@), views(metrics@));
    let ghost all_devices = views(devices@);
    let ghost all_metrics = views(metrics@);
    let n: usize = devices.len();
    for i in 0..n
        invariant
            n == whole.len(),
            all_devices.len() == n,
            all_metrics.len() == n,
            whole == paired(all_devices, all_metrics),
            views(devices@) =~= all_devices.skip(i as int),
            views(metrics@) =~= all_metrics.skip(i as int),
            views(r@) =~= whole.take(i as int),
    {
        let ghost d = views(devices@);
        let ghost m = views(metrics@);
        assert(d[0] == all_devices[i as int]);
        assert(m[0] == all_metrics[i as int]);
        assert(devices@.len() == d.len());
        assert(metrics@.len() == m.len());
        let gpu: Device = devices.remove(0);
        let readings: Metrics = metrics.remove(0);
        assert(views(devices@) =~= d.skip(1));
        assert(views(metrics@) =~= m.skip(1));
        let ghost before = views(r@);
        r.push((gpu, readings));
        assert(views(r@) =~= before.push((gpu@, readings@)));
    }
    assert(whole.take(n as int) =~= whole);
    r
}

/// Begins a run.
pub fn run(options: Options, version: String) -> (r: (Session, Action))
    requires
        options@.mode == Mode::Table ==> title_room("RADEON-SMI "@ + version@) >= 0,
    ensures
        (r.0@, r.1@) == begun(options@, version@),
        is_sound(r.0@),
{
    match options.mode {
        Mode::HelpQuery => (
            Session { options, version, first: true, stage: Stage::Over },
            Action::Conclude(list_fields()),
        ),
        Mode::Help => {
            let lines: Vec<String> = help(version.as_str());
            (
                Session { options, version, first: true, stage: Stage::Over },
                Action::Conclude(lines),
            )
        },
        Mode::Version => {
            let mut lines: Vec<String> = Vec::new();
            lines.push(joined_pair("radeon-smi ", version.as_str()));
            assert(texts(lines@) =~= seq!["radeon-smi "@ + version@]);
            (
                Session { options, version, first: true, stage: Stage::Over },
                Action::Conclude(lines),
            )
        },
        _ => (
            Session { options, version, first: true, stage: Stage::Discovering },
            Action::Discover,
        ),
    }
}

impl Session {
    /// The devices that the run is about, once they have been chosen.
    pub fn devices(&self) -> (r: Option<&Vec<Device>>)
        ensures
            match self@.stage {
                StageView::Scanning(devices) => r is Some && views((r->0)@) == devices,
                StageView::Collecting(devices, _) => r is Some && views((r->0)@) == devices,
                _ => r is None,
            },
    {
        match &self.stage {
            Stage::Scanning(devices) => Some(devices),
            Stage::Collecting(devices, _) => Some(devices),
            _ => None,
        }
    }

    fn at(self, stage: Stage) -> (r: Session)
        ensures
            r@ == (SessionView { stage: stage@, ..self@ }),
    {
        Session { options: self.options, version: self.version, first: self.first, stage }
    }

    fn take_devices(self, result: Result<Vec<Device>, String>) -> (r: (Session, Action))
        ensures
            (r.0@, r.1@) == after_discovery(self@, devices_read(result)),
    {
        let found: Vec<Device> = match result {
            Ok(devices) => devices,
            Err(reason) => {
                return (
                    self.at(Stage::Over),
                    Action::Fail(joined_pair("cannot discover DRM devices: ", reason.as_str())),
                );
            },
        };
        match selected(found, &self.options.id) {
            Err(message) => (self.at(Stage::Over), Action::Fail(message)),
            Ok(devices) => {
                assert(views(devices@).len() == devices@.len());
                if devices.len() == 0 {
                    (
                        self.at(Stage::Over),
                        Action::Fail("no Radeon DRM GPUs found (radeon or amdgpu)".to_owned()),
                    )
                } else if self.options.mode == Mode::List {
                    let lines: Vec<String> = list(&devices);
                    (self.at(Stage::Printing), Action::Print(lines))
                } else if self.options.mode == Mode::Table {
                    (self.at(Stage::Scanning(devices)), Action::FindProcesses)
                } else {
                    let nobody: Vec<Process> = Vec::new();
                    assert(views(nobody@) =~= Seq::empty());
                    (self.at(Stage::Collecting(devices, nobody)), Action::Collect)
                }
            },
        }
    }

    fn report(
        &self,
        devices: &Vec<(Device, Metrics)>,
        processes: &Vec<Process>,
        stamp: &str,
    ) -> (r: Vec<String>)
        requires
            is_sound(self@),
            devices@.len() > 0,
        ensures
            texts(r@) == report_lines(self@, views(devices@), views(processes@), stamp@),
    {
        match self.options.mode {
            Mode::Table => table(devices, processes, stamp, self.version.as_str()),
            Mode::Query => query(devices, stamp, &self.options, self.first),
            _ => detail(devices, stamp),
        }
    }

    /// Takes what came of the last action.
    pub fn advance(self, event: Event) -> (r: (Session, Action))
        requires
            is_sound(self@),
            can_come(self@, event@),
        ensures
            (r.0@, r.1@) == after_event(self@, event@),
            is_sound(r.0@),
    {
        let Session { options, version, first, stage } = self;
        match (stage, event) {
            (Stage::Discovering, Event::Discovered(result)) => {
                let session: Session = Session {
                    options,
                    version,
                    first,
                    stage: Stage::Discovering,
                };
                session.take_devices(result)
            },
            (Stage::Scanning(devices), Event::Processes(processes)) => (
                Session { options, version, first, stage: Stage::Collecting(devices, processes) },
                Action::Collect,
            ),
            (Stage::Collecting(devices, processes), Event::Collected(metrics, stamp)) => {
                assert(views(devices@).len() == devices@.len());
                assert(views(metrics@).len() == metrics@.len());
                let pairs: Vec<(Device, Metrics)> = pair_up(devices, metrics);
                assert(views(pairs@).len() == pairs@.len());
                let session: Session = Session { options, version, first, stage: Stage::Printing };
                let lines: Vec<String> = session.report(&pairs, &processes, stamp.as_str());
                (session, Action::Print(lines))
            },
            (Stage::Printing, Event::Printed(result)) => match (result, options.interval) {
                (Err(message), _) => (
                    Session { options, version, first, stage: Stage::Over },
                    Action::Fail(message),
                ),
                (Ok(_), None) => (
                    Session { options, version, first: false, stage: Stage::Over },
                    Action::Finish,
                ),
                (Ok(_), Some(interval)) => {
                    let blank: bool = options.mode != Mode::Query;
                    (
                        Session { options, version, first: false, stage: Stage::Waiting },
                        Action::Wait(blank, interval),
                    )
                },
            },
            (Stage::Waiting, Event::Waited) => (
                Session { options, version, first, stage: Stage::Discovering },
                Action::Discover,
            ),
            (stage, _) => (Session { options, version, first, stage }, Action::Finish),
        }
    }
}

// ---------------------------------------------------------------------------
// Laws
// ---------------------------------------------------------------------------
/// The devices that an id calls are those that it is a name of, and no others.
pub proof fn called_are_those_with_the_name(devices: Seq<DeviceView>, id: Seq<char>)
    ensures
        forall|d: DeviceView| #[trigger]
            called(devices, id).contains(d) <==> devices.contains(d) && is_called(d, id),
        called(devices, id).len() <= devices.len(),
    decreases devices.len(),
{
    let found = called(devices, id);
    if devices.len() > 0 {
        let front = devices.drop_last();
        let before = called(front, id);
        called_are_those_with_the_name(front, id);
        assert forall|d: DeviceView| #[trigger] found.contains(d) <==> devices.contains(d)
            && is_called(d, id) by {
            if devices.contains(d) && is_called(d, id) {
                let i = choose|i: int| 0 <= i < devices.len() && devices[i] == d;
                if i < front.len() {
                    assert(front[i] == d);
                    assert(before.contains(d));
                    let k = choose|k: int| 0 <= k < before.len() && before[k] == d;
                    assert(found[k] == d);
                } else {
                    assert(found[found.len() - 1] == d);
                }
            }
            if found.contains(d) {
                let k = choose|k: int| 0 <= k < found.len() && found[k] == d;
                if k < before.len() {
                    assert(before[k] == d);
                    assert(before.contains(d));
                    let i = choose|i: int| 0 <= i < front.len() && front[i] == d;
                    assert(devices[i] == d);
                } else {
                    assert(devices[devices.len() - 1] == d);
                }
            }
        }
    }
}

/// Every device can be chosen by its index, by its bus id, and by the long form of its bus id, the
/// last two in either case.
pub proof fn every_device_can_be_chosen(devices: Seq<DeviceView>, i: int, id: Seq<char>)
    requires
        0 <= i < devices.len(),
        id == decimal_of(devices[i].index as nat) || in_capitals(id) == in_capitals(
            devices[i].bus_id,
        ) || in_capitals(id) == in_capitals(long_bus_id(devices[i].bus_id)),
    ensures
        chosen(devices, Some(id)) matches Ok(found) && found.contains(devices[i]),
{
    called_are_those_with_the_name(devices, id);
    assert(devices.contains(devices[i]));
    assert(called(devices, id).contains(devices[i]));
}

/// Who asks for no device in particular gets all of them.
pub proof fn no_id_chooses_all(devices: Seq<DeviceView>)
    ensures
        chosen(devices, None) == Ok::<Seq<DeviceView>, Seq<char>>(devices),
{
}

/// An id is refused exactly if it is no name of any device.
pub proof fn unknown_ids_are_refused(devices: Seq<DeviceView>, id: Seq<char>)
    ensures
        chosen(devices, Some(id)) is Err <==> forall|i: int|
            0 <= i < devices.len() ==> !is_called(#[trigger] devices[i], id),
{
    called_are_those_with_the_name(devices, id);
    let found = called(devices, id);
    if found.len() > 0 {
        assert(found.contains(found[0]));
        let i = choose|i: int| 0 <= i < devices.len() && devices[i] == found[0];
        assert(is_called(devices[i], id));
    } else {
        assert forall|i: int| 0 <= i < devices.len() implies !is_called(
            #[trigger] devices[i],
            id,
        ) by {
            assert(devices.contains(devices[i]));
            if is_called(devices[i], id) {
                assert(found.contains(devices[i]));
            }
        }
    }
}

/// The action ends the run.
pub open spec fn is_last(action: ActionView) -> bool {
    action is Conclude || action is Finish || action is Fail
}

/// A run is over exactly if its last action was an ending one.
pub proof fn over_means_ended(s: SessionView, event: EventView)
    requires
        can_come(s, event),
    ensures
        after_event(s, event).0.stage == StageView::Over <==> is_last(after_event(s, event).1),
{
}

/// The texts about the program end the run at once.
pub proof fn texts_need_no_device(options: OptionsView, version: Seq<char>)
    ensures
        (options.mode == Mode::HelpQuery || options.mode == Mode::Help || options.mode
            == Mode::Version) <==> begun(options, version).1 is Conclude,
        begun(options, version).1 is Conclude <==> begun(options, version).0.stage
            == StageView::Over,
{
}

/// How many events there can be, from this stage on, in a run that prints one report.
pub open spec fn events_left(stage: StageView) -> nat {
    match stage {
        StageView::Waiting => 5,
        StageView::Discovering => 4,
        StageView::Scanning(_) => 3,
        StageView::Collecting(_, _) => 2,
        StageView::Printing => 1,
        StageView::Over => 0,
    }
}

/// A run without an interval ends: every event brings it nearer to its end, and it never waits.
pub proof fn single_reports_end(s: SessionView, event: EventView)
    requires
        s.options.interval is None,
        s.stage != StageView::Waiting,
        can_come(s, event),
    ensures
        events_left(after_event(s, event).0.stage) < events_left(s.stage),
        after_event(s, event).0.stage != StageView::Waiting,
        !(after_event(s, event).1 is Wait),
{
}

/// What follows the events, one behind the other.
pub open spec fn after_events(s: SessionView, events: Seq<EventView>) -> SessionView
    decreases events.len(),
{
    if events.len() == 0 {
        s
    } else {
        after_event(after_events(s, events.drop_last()), events.last()).0
    }
}

/// Each of the events can come in the state before it.
pub open spec fn is_course(s: SessionView, events: Seq<EventView>) -> bool
    decreases events.len(),
{
    events.len() == 0 || (is_course(s, events.drop_last()) && can_come(
        after_events(s, events.drop_last()),
        events.last(),
    ))
}

proof fn lemma_course(s: SessionView, events: Seq<EventView>)
    requires
        s.options.interval is None,
        s.stage != StageView::Waiting,
        is_course(s, events),
    ensures
        events_left(after_events(s, events).stage) + events.len() <= events_left(s.stage),
        after_events(s, events).stage != StageView::Waiting,
        after_events(s, events).options == s.options,
    decreases events.len(),
{
    if events.len() > 0 {
        let before = after_events(s, events.drop_last());
        lemma_course(s, events.drop_last());
        single_reports_end(before, events.last());
        options_stay(before, events.last());
    }
}

/// However the machine answers, a run without an interval is over after four events at most.
pub proof fn single_reports_are_short(
    options: OptionsView,
    version: Seq<char>,
    events: Seq<EventView>,
)
    requires
        options.interval is None,
        is_course(begun(options, version).0, events),
    ensures
        events.len() <= 4,
        events.len() == 4 ==> after_events(begun(options, version).0, events).stage
            == StageView::Over,
{
    lemma_course(begun(options, version).0, events);
}

/// A run with an interval ends only if something fails; else it waits for that interval after each
/// report, and begins anew.
pub proof fn repeated_reports_go_on(s: SessionView, event: EventView)
    requires
        s.options.interval is Some,
        can_come(s, event),
    ensures
        after_event(s, event).0.stage == StageView::Over ==> after_event(s, event).1 is Fail,
        after_event(s, event).1 matches ActionView::Wait(blank, t) ==> Some(t)
            == s.options.interval && blank == (s.options.mode != Mode::Query),
        event == EventView::Printed(Ok(())) ==> after_event(s, event).1 is Wait,
        event == EventView::Waited ==> after_event(s, event).1 == ActionView::Discover,
{
}

/// What was asked for never changes, and a report that is not the first never becomes the first
/// again.
pub proof fn options_stay(s: SessionView, event: EventView)
    requires
        can_come(s, event),
    ensures
        after_event(s, event).0.options == s.options,
        after_event(s, event).0.version == s.version,
        !s.first ==> !after_event(s, event).0.first,
        event == EventView::Printed(Ok(())) ==> !after_event(s, event).0.first,
{
}

proof fn lemma_not_first_again(s: SessionView, events: Seq<EventView>, i: int)
    requires
        is_course(s, events),
        0 <= i < events.len(),
        events[i] == EventView::Printed(Ok(())),
    ensures
        !after_events(s, events).first,
        after_events(s, events).options == s.options,
    decreases events.len(),
{
    let before = after_events(s, events.drop_last());
    options_stay(before, events.last());
    if i < events.len() - 1 {
        lemma_not_first_again(s, events.drop_last(), i);
    } else {
        lemma_options_stay(s, events.drop_last());
    }
}

proof fn lemma_options_stay(s: SessionView, events: Seq<EventView>)
    requires
        is_course(s, events),
    ensures
        after_events(s, events).options == s.options,
    decreases events.len(),
{
    if events.len() > 0 {
        lemma_options_stay(s, events.drop_last());
        options_stay(after_events(s, events.drop_last()), events.last());
    }
}

/// The names of the fields are printed at most once in a run: once a report of a query has been
/// printed, every later one has one line for each device, and nothing else.
pub proof fn header_is_printed_once(
    s: SessionView,
    events: Seq<EventView>,
    i: int,
    devices: Seq<(DeviceView, MetricsView)>,
    processes: Seq<ProcessView>,
    stamp: Seq<char>,
)
    requires
        s.options.mode == Mode::Query,
        is_course(s, events),
        0 <= i < events.len(),
        events[i] == EventView::Printed(Ok(())),
    ensures
        report_lines(after_events(s, events), devices, processes, stamp).len() == devices.len(),
{
    lemma_not_first_again(s, events, i);
    query_line_count(devices, stamp, s.options, false);
}

/// Only the table asks who uses the devices, and a list asks for nothing but the devices.
pub proof fn only_what_is_shown_is_read(s: SessionView, event: EventView)
    requires
        s.stage == StageView::Discovering,
        can_come(s, event),
    ensures
        after_event(s, event).1 is FindProcesses ==> s.options.mode == Mode::Table,
        after_event(s, event).1 is Collect ==> s.options.mode != Mode::Table && s.options.mode
            != Mode::List,
        after_event(s, event).1 is Print ==> s.options.mode == Mode::List,
{
}

/// A run that finds no device it was asked for prints nothing and says so.
pub proof fn nothing_to_show_is_a_failure(s: SessionView, devices: Seq<DeviceView>)
    requires
        s.stage == StageView::Discovering,
        chosen(devices, s.options.id) is Err || devices.len() == 0,
    ensures
        after_event(s, EventView::Discovered(Ok(devices))).1 is Fail,
{
    if let Some(id) = s.options.id {
        called_are_those_with_the_name(devices, id);
    }
}

/// The help names the program and its version, and each flag with what it is for.
pub proof fn help_names_every_flag(version: Seq<char>)
    ensures
        help_lines(version).len() == 12,
        has_prefix(help_lines(version)[0], "radeon-smi "@ + version),
        help_lines(version)[1] == "Usage: radeon-smi [options]"@,
        stands_at(help_lines(version)[2], "-L"@, 2),
        stands_at(help_lines(version)[2], "--list-gpus"@, 6),
        stands_at(help_lines(version)[2], "List GPUs"@, 27),
        stands_at(help_lines(version)[3], "-i"@, 2),
        stands_at(help_lines(version)[3], "--id ID"@, 6),
        stands_at(help_lines(version)[3], "Select GPU by index or PCI bus ID"@, 27),
        stands_at(help_lines(version)[4], "-q"@, 2),
        stands_at(help_lines(version)[4], "--query"@, 6),
        stands_at(help_lines(version)[4], "Show detailed metrics"@, 27),
        stands_at(help_lines(version)[5], "--query-gpu=FIELDS"@, 6),
        stands_at(help_lines(version)[5], "Query comma-separated GPU fields"@, 27),
        stands_at(help_lines(version)[6], "--format=csv[,noheader][,nounits]"@, 6),
        stands_at(help_lines(version)[7], "--help-query-gpu"@, 6),
        stands_at(help_lines(version)[7], "List query fields"@, 27),
        stands_at(help_lines(version)[8], "-l"@, 2),
        stands_at(help_lines(version)[8], "--loop[=SEC]"@, 6),
        stands_at(help_lines(version)[8], "Repeat output (default: 5 seconds)"@, 27),
        stands_at(help_lines(version)[9], "-lms"@, 2),
        stands_at(help_lines(version)[9], "--loop-ms=MS"@, 8),
        stands_at(help_lines(version)[9], "Repeat output in milliseconds"@, 27),
        stands_at(help_lines(version)[10], "-h"@, 2),
        stands_at(help_lines(version)[10], "--help"@, 6),
        stands_at(help_lines(version)[10], "Show this help"@, 27),
        stands_at(help_lines(version)[11], "--version"@, 6),
        stands_at(help_lines(version)[11], "Show version"@, 27),
{
    assert(help_lines(version)[0].take(("radeon-smi "@ + version).len() as int) =~= "radeon-smi "@
        + version);
    assert({
        let line = "  -L, --list-gpus          List GPUs"@;
        &&& stands_at(line, "-L"@, 2)
        &&& stands_at(line, "--list-gpus"@, 6)
        &&& stands_at(line, "List GPUs"@, 27)
    }) by {
        let line = "  -L, --list-gpus          List GPUs"@;
        reveal_strlit("  -L, --list-gpus          List GPUs");
        reveal_strlit("-L");
        reveal_strlit("--list-gpus");
        reveal_strlit("List GPUs");
        assert(line.subrange(2, 4) =~= "-L"@);
        assert(line.subrange(6, 17) =~= "--list-gpus"@);
        assert(line.subrange(27, 36) =~= "List GPUs"@);
    }
    assert({
        let line = "  -i, --id ID              Select GPU by index or PCI bus ID"@;
        &&& stands_at(line, "-i"@, 2)
        &&& stands_at(line, "--id ID"@, 6)
        &&& stands_at(line, "Select GPU by index or PCI bus ID"@, 27)
    }) by {
        let line = "  -i, --id ID              Select GPU by index or PCI bus ID"@;
        reveal_strlit("  -i, --id ID              Select GPU by index or PCI bus ID");
        reveal_strlit("-i");
        reveal_strlit("--id ID");
        reveal_strlit("Select GPU by index or PCI bus ID");
        assert(line.subrange(2, 4) =~= "-i"@);
        assert(line.subrange(6, 13) =~= "--id ID"@);
        assert(line.subrange(27, 60) =~= "Select GPU by index or PCI bus ID"@);
    }
    assert({
        let line = "  -q, --query              Show detailed metrics"@;
        &&& stands_at(line, "-q"@, 2)
        &&& stands_at(line, "--query"@, 6)
        &&& stands_at(line, "Show detailed metrics"@, 27)
    }) by {
        let line = "  -q, --query              Show detailed metrics"@;
        reveal_strlit("  -q, --query              Show detailed metrics");
        reveal_strlit("-q");
        reveal_strlit("--query");
        reveal_strlit("Show detailed metrics");
        assert(line.subrange(2, 4) =~= "-q"@);
        assert(line.subrange(6, 13) =~= "--query"@);
        assert(line.subrange(27, 48) =~= "Show detailed metrics"@);
    }
    assert({
        let line = "      --query-gpu=FIELDS   Query comma-separated GPU fields"@;
        &&& stands_at(line, "--query-gpu=FIELDS"@, 6)
        &&& stands_at(line, "Query comma-separated GPU fields"@, 27)
    }) by {
        let line = "      --query-gpu=FIELDS   Query comma-separated GPU fields"@;
        reveal_strlit("      --query-gpu=FIELDS   Query comma-separated GPU fields");
        reveal_strlit("--query-gpu=FIELDS");
        reveal_strlit("Query comma-separated GPU fields");
        assert(line.subrange(6, 24) =~= "--query-gpu=FIELDS"@);
        assert(line.subrange(27, 59) =~= "Query comma-separated GPU fields"@);
    }
    assert({
        let line = "      --format=csv[,noheader][,nounits]"@;
        &&& stands_at(line, "--format=csv[,noheader][,nounits]"@, 6)
    }) by {
        let line = "      --format=csv[,noheader][,nounits]"@;
        reveal_strlit("      --format=csv[,noheader][,nounits]");
        reveal_strlit("--format=csv[,noheader][,nounits]");
        assert(line.subrange(6, 39) =~= "--format=csv[,noheader][,nounits]"@);
    }
    assert({
        let line = "      --help-query-gpu     List query fields"@;
        &&& stands_at(line, "--help-query-gpu"@, 6)
        &&& stands_at(line, "List query fields"@, 27)
    }) by {
        let line = "      --help-query-gpu     List query fields"@;
        reveal_strlit("      --help-query-gpu     List query fields");
        reveal_strlit("--help-query-gpu");
        reveal_strlit("List query fields");
        assert(line.subrange(6, 22) =~= "--help-query-gpu"@);
        assert(line.subrange(27, 44) =~= "List query fields"@);
    }
    assert({
        let line = "  -l, --loop[=SEC]         Repeat output (default: 5 seconds)"@;
        &&& stands_at(line, "-l"@, 2)
        &&& stands_at(line, "--loop[=SEC]"@, 6)
        &&& stands_at(line, "Repeat output (default: 5 seconds)"@, 27)
    }) by {
        let line = "  -l, --loop[=SEC]         Repeat output (default: 5 seconds)"@;
        reveal_strlit("  -l, --loop[=SEC]         Repeat output (default: 5 seconds)");
        reveal_strlit("-l");
        reveal_strlit("--loop[=SEC]");
        reveal_strlit("Repeat output (default: 5 seconds)");
        assert(line.subrange(2, 4) =~= "-l"@);
        assert(line.subrange(6, 18) =~= "--loop[=SEC]"@);
        assert(line.subrange(27, 61) =~= "Repeat output (default: 5 seconds)"@);
    }
    assert({
        let line = "  -lms, --loop-ms=MS       Repeat output in milliseconds"@;
        &&& stands_at(line, "-lms"@, 2)
        &&& stands_at(line, "--loop-ms=MS"@, 8)
        &&& stands_at(line, "Repeat output in milliseconds"@, 27)
    }) by {
        let line = "  -lms, --loop-ms=MS       Repeat output in milliseconds"@;
        reveal_strlit("  -lms, --loop-ms=MS       Repeat output in milliseconds");
        reveal_strlit("-lms");
        reveal_strlit("--loop-ms=MS");
        reveal_strlit("Repeat output in milliseconds");
        assert(line.subrange(2, 6) =~= "-lms"@);
        assert(line.subrange(8, 20) =~= "--loop-ms=MS"@);
        assert(line.subrange(27, 56) =~= "Repeat output in milliseconds"@);
    }
    assert({
        let line = "  -h, --help               Show this help"@;
        &&& stands_at(line, "-h"@, 2)
        &&& stands_at(line, "--help"@, 6)
        &&& stands_at(line, "Show this help"@, 27)
    }) by {
        let line = "  -h, --help               Show this help"@;
        reveal_strlit("  -h, --help               Show this help");
        reveal_strlit("-h");
        reveal_strlit("--help");
        reveal_strlit("Show this help");
        assert(line.subrange(2, 4) =~= "-h"@);
        assert(line.subrange(6, 12) =~= "--help"@);
        assert(line.subrange(27, 41) =~= "Show this help"@);
    }
    assert({
        let line = "      --version            Show version"@;
        &&& stands_at(line, "--version"@, 6)
        &&& stands_at(line, "Show version"@, 27)
    }) by {
        let line = "      --version            Show version"@;
        reveal_strlit("      --version            Show version");
        reveal_strlit("--version");
        reveal_strlit("Show version");
        assert(line.subrange(6, 15) =~= "--version"@);
        assert(line.subrange(27, 39) =~= "Show version"@);
    }
}

/// What each of the texts about the program says.
pub proof fn texts_say_what_was_asked(options: OptionsView, version: Seq<char>)
    ensures
        options.mode == Mode::Version ==> (begun(options, version).1 matches ActionView::Conclude(
            lines,
        ) && lines.len() == 1 && lines[0] == "radeon-smi "@ + version),
        options.mode == Mode::Help ==> begun(options, version).1 == ActionView::Conclude(
            help_lines(version),
        ),
        options.mode == Mode::HelpQuery ==> begun(options, version).1 == ActionView::Conclude(
            field_lines(),
        ),
        options.mode != Mode::Version && options.mode != Mode::Help && options.mode
            != Mode::HelpQuery ==> begun(options, version) == (
            SessionView { options, version, first: true, stage: StageView::Discovering },
            ActionView::Discover,
        ),
{
}

/// A time that the machine cannot write is the number of seconds since 1970.
pub proof fn times_are_those_of_the_machine(seconds: i64, local: Option<Seq<char>>)
    ensures
        match local {
            Some(text) => stamp_of(seconds, local) == text,
            None => is_decimal(stamp_of(seconds, local), seconds as int),
        },
{
    numbers_are_written_in_decimal(seconds as int);
}

/// A device is chosen only by its index, its bus id or the long form of that, the last two in
/// either case; the complaint names what no device is called.
pub proof fn only_called_devices_are_chosen(devices: Seq<DeviceView>, id: Seq<char>, k: int)
    requires
        forall|i: int| 0 <= i < devices.len() ==> (#[trigger] devices[i]).index >= 0,
    ensures
        match chosen(devices, Some(id)) {
            Ok(found) => found.len() > 0 && (0 <= k < found.len() ==> devices.contains(found[k]) && (
            is_decimal(id, found[k].index) || in_capitals(id) == in_capitals(found[k].bus_id)
                || in_capitals(id) == in_capitals(long_bus_id(found[k].bus_id)))),
            Err(message) => message == "GPU not found: "@ + id,
        },
{
    called_are_those_with_the_name(devices, id);
    let found = called(devices, id);
    if 0 <= k < found.len() {
        assert(found.contains(found[k]));
        let i = choose|i: int| 0 <= i < devices.len() && devices[i] == found[k];
        assert(devices[i].index >= 0);
        numbers_are_written_in_decimal(found[k].index);
    }
}

/// The devices that are chosen stand in the order in which they were found, each as often as there.
pub proof fn chosen_devices_stay_in_order(
    before: Seq<DeviceView>,
    behind: Seq<DeviceView>,
    id: Seq<char>,
)
    ensures
        called(before + behind, id) == called(before, id) + called(behind, id),
    decreases behind.len(),
{
    if behind.len() == 0 {
        assert(before + behind =~= before);
        assert(called(before, id) + called(behind, id) =~= called(before, id));
    } else {
        let front = behind.drop_last();
        chosen_devices_stay_in_order(before, front, id);
        assert((before + behind).drop_last() =~= before + front);
        assert((before + behind).last() == behind.last());
        assert((called(before, id) + called(front, id)).push(behind.last()) =~= called(before, id)
            + called(front, id).push(behind.last()));
    }
}

/// What follows the search for devices: why it failed, that there is none, the list of those that
/// were chosen, or the work on those.
pub proof fn the_chosen_devices_are_shown(s: SessionView, devices: Seq<DeviceView>)
    requires
        s.stage == StageView::Discovering,
        chosen(devices, s.options.id) is Ok,
        (chosen(devices, s.options.id)->Ok_0).len() > 0,
    ensures
        ({
            let wanted = chosen(devices, s.options.id)->Ok_0;
            let (next, action) = after_event(s, EventView::Discovered(Ok(devices)));
            &&& s.options.mode == Mode::List ==> action == ActionView::Print(list_lines(wanted))
            &&& s.options.mode == Mode::Table ==> next.stage == StageView::Scanning(wanted)
            &&& s.options.mode != Mode::List && s.options.mode != Mode::Table ==> next.stage
                == StageView::Collecting(wanted, Seq::empty())
        }),
{
}

/// The complaints of a run: why the devices cannot be found, that there is none, that none is
/// called so, and why a report could not be seen through.
pub proof fn failures_are_told(s: SessionView, reason: Seq<char>, id: Seq<char>)
    ensures
        s.stage == StageView::Discovering ==> after_event(
            s,
            EventView::Discovered(Err(reason)),
        ).1 == ActionView::Fail("cannot discover DRM devices: "@ + reason),
        s.stage == StageView::Discovering && s.options.id is None ==> after_event(
            s,
            EventView::Discovered(Ok(Seq::empty())),
        ).1 == ActionView::Fail("no Radeon DRM GPUs found (radeon or amdgpu)"@),
        s.stage == StageView::Discovering && s.options.id == Some(id) ==> after_event(
            s,
            EventView::Discovered(Ok(Seq::empty())),
        ).1 == ActionView::Fail("GPU not found: "@ + id),
        s.stage == StageView::Printing ==> after_event(s, EventView::Printed(Err(reason))).1
            == ActionView::Fail(reason),
{
}

/// The users that were found are those that are shown, of the devices that were chosen.
pub proof fn the_users_found_are_kept(
    s: SessionView,
    devices: Seq<DeviceView>,
    processes: Seq<ProcessView>,
)
    requires
        s.stage == StageView::Scanning(devices),
    ensures
        after_event(s, EventView::Processes(processes)) == (
            SessionView { stage: StageView::Collecting(devices, processes), ..s },
            ActionView::Collect,
        ),
{
}

proof fn lemma_two_lines(lines: Seq<Seq<char>>, from: int, a: Seq<char>, b: Seq<char>)
    requires
        0 <= from,
        from + 2 <= lines.len(),
        lines[from] == a,
        lines[from + 1] == b,
    ensures
        has_lines(lines, seq![a, b]),
{
    assert(lines.subrange(from, from + 2) =~= seq![a, b]);
    assert(stand_from(lines, seq![a, b], from));
}

/// In the table the readings at an index stand with the device at that index, whatever the others
/// are.
#[verifier::rlimit(40)]
pub proof fn rows_show_each_device_with_its_readings(
    s: SessionView,
    devices: Seq<DeviceView>,
    processes: Seq<ProcessView>,
    metrics: Seq<MetricsView>,
    stamp: Seq<char>,
    i: int,
)
    requires
        s.stage == StageView::Collecting(devices, processes),
        metrics.len() == devices.len(),
        0 <= i < devices.len(),
        s.options.mode == Mode::Table,
    ensures
        after_event(s, EventView::Collected(metrics, stamp)).1 matches ActionView::Print(lines)
            && has_lines(lines, seq![name_row(devices[i], metrics[i]), reading_row(metrics[i])]),
{
    let pairs = paired(devices, metrics);
    assert(pairs[i] == (devices[i], metrics[i]));
    let lines = table_lines(pairs, processes, stamp, s.version);
    let from = 7int + block_lines(pairs.take(i));
    assert(from + 3 <= lines.len() && lines[from] == name_row(devices[i], metrics[i]) && lines[from
        + 1] == reading_row(metrics[i])) by {
        devices_stand_in_order(pairs, processes, stamp, s.version, i);
    }
    lemma_two_lines(lines, from, name_row(devices[i], metrics[i]), reading_row(metrics[i]));
    assert(after_event(s, EventView::Collected(metrics, stamp)).1 == ActionView::Print(lines));
}

/// In the answer to a query the values at an index are those of the device and of the readings at
/// that index.
#[verifier::rlimit(40)]
pub proof fn answers_show_each_device_with_its_readings(
    s: SessionView,
    devices: Seq<DeviceView>,
    processes: Seq<ProcessView>,
    metrics: Seq<MetricsView>,
    stamp: Seq<char>,
    i: int,
)
    requires
        s.stage == StageView::Collecting(devices, processes),
        metrics.len() == devices.len(),
        0 <= i < devices.len(),
        s.options.mode == Mode::Query,
        s.options.fields.len() > 0,
    ensures
        after_event(s, EventView::Collected(metrics, stamp)).1 matches ActionView::Print(lines) && {
            let values = csv_values(lines[lines.len() - devices.len() + i]);
            &&& values.len() == s.options.fields.len()
            &&& forall|k: int|
                0 <= k < values.len() ==> #[trigger] values[k] == value_of(
                    s.options.fields[k],
                    devices[i],
                    metrics[i],
                    stamp,
                    s.options.nounits,
                )
        },
{
    let pairs = paired(devices, metrics);
    assert(pairs[i] == (devices[i], metrics[i]));
    query_reads_back(pairs, stamp, s.options, s.first, i);
}

/// In the details the readings at an index stand with the device at that index.
pub proof fn details_show_each_device_with_its_readings(
    s: SessionView,
    devices: Seq<DeviceView>,
    processes: Seq<ProcessView>,
    metrics: Seq<MetricsView>,
    stamp: Seq<char>,
    i: int,
)
    requires
        s.stage == StageView::Collecting(devices, processes),
        metrics.len() == devices.len(),
        0 <= i < devices.len(),
        s.options.mode == Mode::Detail,
    ensures
        after_event(s, EventView::Collected(metrics, stamp)).1 matches ActionView::Print(lines)
            && has_lines(lines, detail_block(devices[i], metrics[i], stamp)),
{
    let pairs = paired(devices, metrics);
    assert(pairs[i] == (devices[i], metrics[i]));
    let lines = detail_lines(pairs, stamp);
    let block = detail_block(devices[i], metrics[i], stamp);
    let from = detail_count(pairs.take(i)) as int;
    details_stand_in_order(pairs, stamp, i);
    assert(stand_from(lines, block, from));
}

/// `part` stands among `lines` from the index `from` on.
pub open spec fn stand_from(lines: Seq<Seq<char>>, part: Seq<Seq<char>>, from: int) -> bool {
    0 <= from && from + part.len() <= lines.len() && lines.subrange(from, from + part.len()) == part
}

/// `part` stands among `lines`, one line behind the other.
pub open spec fn has_lines(lines: Seq<Seq<char>>, part: Seq<Seq<char>>) -> bool {
    exists|from: int| #[trigger] stand_from(lines, part, from)
}

/// The table of a run shows every user that was found, in order, and the time and the version.
pub proof fn every_user_is_shown(
    s: SessionView,
    devices: Seq<DeviceView>,
    processes: Seq<ProcessView>,
    metrics: Seq<MetricsView>,
    stamp: Seq<char>,
    k: int,
)
    requires
        s.stage == StageView::Collecting(devices, processes),
        s.options.mode == Mode::Table,
        0 <= k < processes.len(),
    ensures
        after_event(s, EventView::Collected(metrics, stamp)).1 matches ActionView::Print(lines) && {
            &&& lines[0] == stamp
            &&& lines[lines.len() - 2 - processes.len() + k] == process_row(processes[k])
        },
{
    let pairs = paired(devices, metrics);
    processes_stand_in_order(pairs, processes, stamp, s.version);
    table_line_count(pairs, processes, stamp, s.version);
    let lines = table_lines(pairs, processes, stamp, s.version);
    let at = 13int + block_lines(pairs) + k;
    assert(lines[at] == process_row(processes[k]));
    assert(at == lines.len() - 2 - processes.len() + k);
}

/// What is said of a run is what it holds, field by field.
pub proof fn runs_are_seen_by_their_fields(s: Session)
    ensures
        s@.options == s.options@,
        s@.version == s.version@,
        s@.first == s.first,
        s@.stage == s.stage@,
        s.stage is Discovering <==> s@.stage is Discovering,
        s.stage matches Stage::Scanning(devices) ==> s@.stage == StageView::Scanning(
            views(devices@),
        ),
        s.stage matches Stage::Collecting(devices, processes) ==> s@.stage == StageView::Collecting(
            views(devices@),
            views(processes@),
        ),
        s.stage is Printing <==> s@.stage is Printing,
        s.stage is Waiting <==> s@.stage is Waiting,
        s.stage is Over <==> s@.stage is Over,
{
}

/// What is said of an action is what it asks for.
pub proof fn actions_are_seen_by_what_they_ask(action: Action)
    ensures
        action is Discover <==> action@ is Discover,
        action is FindProcesses <==> action@ is FindProcesses,
        action is Collect <==> action@ is Collect,
        action is Finish <==> action@ is Finish,
        action matches Action::Print(lines) ==> action@ == ActionView::Print(texts(lines@)),
        action matches Action::Conclude(lines) ==> action@ == ActionView::Conclude(texts(lines@)),
        action matches Action::Wait(blank, t) ==> action@ == ActionView::Wait(blank, t),
        action matches Action::Fail(message) ==> action@ == ActionView::Fail(message@),
{
}

/// What is said of an event is what came.
pub proof fn events_are_seen_by_what_came(event: Event)
    ensures
        event matches Event::Discovered(Ok(devices)) ==> event@ == EventView::Discovered(
            Ok(views(devices@)),
        ),
        event matches Event::Discovered(Err(reason)) ==> event@ == EventView::Discovered(
            Err(reason@),
        ),
        event matches Event::Processes(processes) ==> event@ == EventView::Processes(
            views(processes@),
        ),
        event matches Event::Collected(metrics, stamp) ==> event@ == EventView::Collected(
            views(metrics@),
            stamp@,
        ),
        event matches Event::Printed(Err(reason)) ==> event@ == EventView::Printed(Err(reason@)),
        event matches Event::Printed(Ok(_)) ==> event@ == EventView::Printed(Ok(())),
        event is Waited <==> event@ is Waited,
{
}

} // verus!
