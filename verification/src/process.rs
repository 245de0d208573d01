//! Processes: who uses which device, and how much of its memory.
use crate::device::{Device, DeviceView};
use crate::number::{decimal_of, decimal_reads_back, number, parse_number};
use crate::order::{
    distinct_ranks, sort, sorted, sorted_is_stable, sorted_keeps_items, sorted_keeps_ranks_distinct,
    views, Ranked,
};
use crate::text::{
    first_word, first_word_of, has_prefix, lines, lines_of, optional, prefixes_stand_before, same,
    strip_prefix, texts, trim, trimmed, without_prefix,
};
use vstd::prelude::*;

verus! {

/// A process that has a device open.
pub struct Process {
    pub gpu: usize,
    pub pid: u32,
    pub name: String,
    pub memory: Option<u64>,
}

/// What a `Process` says, its name as a character sequence.
pub struct ProcessView {
    pub gpu: int,
    pub pid: int,
    pub name: Seq<char>,
    pub memory: Option<u64>,
}

impl View for Process {
    type V = ProcessView;

    open spec fn view(&self) -> ProcessView {
        ProcessView {
            gpu: self.gpu as int,
            pid: self.pid as int,
            name: self.name@,
            memory: self.memory,
        }
    }
}

/// Processes stand in the order of their devices, and of their numbers within one device.
impl Ranked for Process {
    open spec fn le(a: ProcessView, b: ProcessView) -> bool {
        a.gpu < b.gpu || (a.gpu == b.gpu && a.pid <= b.pid)
    }

    proof fn le_total(a: ProcessView, b: ProcessView) {
    }

    proof fn le_transitive(a: ProcessView, b: ProcessView, c: ProcessView) {
    }

    fn not_behind(&self, other: &Self) -> (r: bool) {
        self.gpu < other.gpu || (self.gpu == other.gpu && self.pid <= other.pid)
    }
}

// ---------------------------------------------------------------------------
// The description of an open file
// ---------------------------------------------------------------------------
/// What stands behind `prefix` on the last line that begins with it.
pub open spec fn last_value(lines: Seq<Seq<char>>, prefix: Seq<char>) -> Option<Seq<char>>
    decreases lines.len(),
{
    if lines.len() == 0 {
        None
    } else {
        match without_prefix(lines.last(), prefix) {
            Some(value) => Some(value),
            None => last_value(lines.drop_last(), prefix),
        }
    }
}

/// Every amount of video memory that the lines name is a number.
pub open spec fn amounts_are_numbers(lines: Seq<Seq<char>>) -> bool {
    forall|i: int|
        0 <= i < lines.len() ==> (without_prefix(
            #[trigger] lines[i],
            "drm-memory-vram:"@,
        ) matches Some(value) ==> kibibytes(value) is Some)
}

/// The bytes that an amount of video memory counts for, if they fit in 64 bits.
pub open spec fn amount_in(value: Option<Seq<char>>) -> Option<u64> {
    match value {
        Some(value) => match kibibytes(value) {
            Some(n) => in_bytes(n),
            None => None,
        },
        None => None,
    }
}

/// The number that the first word of `value` writes.
pub open spec fn kibibytes(value: Seq<char>) -> Option<nat> {
    match first_word_of(value) {
        Some(word) => number(word, 10, u64::MAX as nat),
        None => None,
    }
}

/// `n` kibibytes in bytes, if they fit in 64 bits.
pub open spec fn in_bytes(n: nat) -> Option<u64> {
    if n * 1024 <= u64::MAX {
        Some((n * 1024) as u64)
    } else {
        None
    }
}

/// The client and the bytes of video memory that a description names: the last line of each kind
/// counts. It names none if one of them is missing, if the amount does not fit in 64 bits, or if
/// any amount is no number.
pub open spec fn memory_in(text: Seq<char>) -> Option<(Seq<char>, u64)> {
    let lines = lines_of(text);
    match (
        last_value(lines, "drm-client-id:"@),
        amount_in(last_value(lines, "drm-memory-vram:"@)),
    ) {
        (Some(client), Some(memory)) => if amounts_are_numbers(lines) {
            Some((trimmed(client), memory))
        } else {
            None
        },
        _ => None,
    }
}

/// The view of a client and its memory.
pub open spec fn client_view(r: Option<(String, u64)>) -> Option<(Seq<char>, u64)> {
    match r {
        Some((client, memory)) => Some((client@, memory)),
        None => None,
    }
}

/// The value without the white space round it.
spec fn trimmed_if(value: Option<Seq<char>>) -> Option<Seq<char>> {
    match value {
        Some(value) => Some(trimmed(value)),
        None => None,
    }
}

/// No line is of both kinds.
proof fn lemma_kinds_differ(line: Seq<char>)
    ensures
        without_prefix(line, "drm-client-id:"@) is None || without_prefix(
            line,
            "drm-memory-vram:"@,
        ) is None,
{
    reveal_strlit("drm-client-id:");
    reveal_strlit("drm-memory-vram:");
    let a = "drm-client-id:"@;
    let b = "drm-memory-vram:"@;
    if has_prefix(line, a) && has_prefix(line, b) {
        assert(line.take(a.len() as int)[4] == a[4]);
        assert(line.take(b.len() as int)[4] == b[4]);
    }
}

/// Reads the client and its memory out of the description of an open file.
pub fn fd_memory(text: &str) -> (r: Option<(String, u64)>)
    ensures
        client_view(r) == memory_in(text@),
{
    let all: Vec<String> = lines(text);
    let mut client: Option<String> = None;
    let mut memory: Option<u64> = None;
    let ghost whole = texts(all@);
    for i in 0..all.len()
        invariant
            whole == texts(all@),
            whole == lines_of(text@),
            optional(client) == trimmed_if(last_value(whole.take(i as int), "drm-client-id:"@)),
            memory == amount_in(last_value(whole.take(i as int), "drm-memory-vram:"@)),
            amounts_are_numbers(whole.take(i as int)),
    {
        let line: &str = all[i].as_str();
        let ghost now = whole.take(i + 1);
        assert(whole[i as int] == line@);
        assert(now.last() == line@);
        assert(now.drop_last() =~= whole.take(i as int));
        proof {
            lemma_kinds_differ(line@);
        }
        assert(forall|j: int| 0 <= j < i ==> now[j] == whole.take(i as int)[j]);
        if let Some(value) = strip_prefix(line, "drm-client-id:") {
            client = Some(trim(value.as_str()));
        } else if let Some(value) = strip_prefix(line, "drm-memory-vram:") {
            let word: String = match first_word(value.as_str()) {
                Some(word) => word,
                None => {
                    assert(kibibytes(value@) is None);
                    return None;
                },
            };
            match parse_number(word.as_str(), 10, u64::MAX) {
                Some(n) => {
                    memory = n.checked_mul(1024);
                },
                None => {
                    assert(kibibytes(value@) is None);
                    return None;
                },
            }
        }
    }
    assert(whole.take(whole.len() as int) =~= whole);
    match (client, memory) {
        (Some(client), Some(memory)) => Some((client, memory)),
        _ => None,
    }
}

// ---------------------------------------------------------------------------
// Open files and device nodes
// ---------------------------------------------------------------------------
/// The number of a device node, if the file is one.
pub fn node_id(is_char_device: bool, number: u64) -> (r: Option<u64>)
    ensures
        r == if is_char_device {
            Some(number)
        } else {
            None
        },
{
    if is_char_device {
        Some(number)
    } else {
        None
    }
}

/// The numbers of the nodes through which a device is opened.
#[derive(Clone, Copy, Debug)]
pub struct NodeIds {
    pub card: Option<u64>,
    pub render: Option<u64>,
}

/// An open file of a process.
pub struct OpenFile {
    /// The number of the device node that it is, if it is one.
    pub node: Option<u64>,
    /// Its description, if it could be read.
    pub info: Option<String>,
}

/// What the process directory shows of one entry.
pub struct ProcEntry {
    /// The name of the entry.
    pub name: String,
    /// The open files, if they could be listed.
    pub files: Option<Vec<OpenFile>>,
    /// The file name of the program, if it could be read.
    pub exe: Option<String>,
    /// The contents of the command name file, if it could be read.
    pub comm: Option<String>,
}

/// An open file with the node number `node` is the device with the numbers `ids`.
pub open spec fn opens(ids: NodeIds, node: Option<u64>) -> bool {
    node is Some && (ids.card == node || ids.render == node)
}

/// An open file with the node number `node` is one of the devices.
pub open spec fn opens_any(nodes: Seq<NodeIds>, node: Option<u64>) -> bool {
    exists|i: int| 0 <= i < nodes.len() && opens(#[trigger] nodes[i], node)
}

fn is_open(ids: &NodeIds, node: Option<u64>) -> (r: bool)
    ensures
        r == opens(*ids, node),
{
    match node {
        Some(id) => {
            let by_card: bool = match ids.card {
                Some(card) => card == id,
                None => false,
            };
            let by_render: bool = match ids.render {
                Some(render) => render == id,
                None => false,
            };
            by_card || by_render
        },
        None => false,
    }
}

/// Whether the description of an open file is worth reading: it is one of the devices with the
/// `amdgpu` driver.
pub fn has_description(devices: &[Device], nodes: &[NodeIds], node: Option<u64>) -> (r: bool)
    requires
        nodes@.len() == devices@.len(),
    ensures
        r == exists|i: int|
            0 <= i < devices@.len() && opens(nodes@[i], node) && (#[trigger] devices@[i])@.driver
                == "amdgpu"@,
{
    for i in 0..devices.len()
        invariant
            nodes@.len() == devices@.len(),
            forall|j: int|
                0 <= j < i ==> !(opens(nodes@[j], node) && (#[trigger] devices@[j])@.driver
                    == "amdgpu"@),
    {
        if is_open(&nodes[i], node) && same(devices[i].driver.as_str(), "amdgpu") {
            assert(devices@[i as int]@.driver == "amdgpu"@);
            return true;
        }
    }
    false
}

fn is_device(nodes: &[NodeIds], node: Option<u64>) -> (r: bool)
    ensures
        r == opens_any(nodes@, node),
{
    for i in 0..nodes.len()
        invariant
            forall|j: int| 0 <= j < i ==> !opens(#[trigger] nodes@[j], node),
    {
        if is_open(&nodes[i], node) {
            return true;
        }
    }
    false
}

/// Whether the name of a process is worth reading: it has one of the devices open.
pub fn is_user(nodes: &[NodeIds], files: &[OpenFile]) -> (r: bool)
    ensures
        r == exists|i: int| 0 <= i < files@.len() && opens_any(nodes@, (#[trigger] files@[i]).node),
{
    for i in 0..files.len()
        invariant
            forall|j: int| 0 <= j < i ==> !opens_any(nodes@, (#[trigger] files@[j]).node),
    {
        if is_device(nodes, files[i].node) {
            return true;
        }
    }
    false
}

/// What the open files of a process show of its use of one device.
pub struct Usage {
    /// The device is open.
    pub seen: bool,
    /// The clients whose memory has been counted.
    pub clients: Seq<Seq<char>>,
    /// The bytes of video memory of those clients.
    pub memory: Option<u64>,
}

/// `a + b`, or the greatest number of 64 bits.
pub open spec fn saturated(a: int, b: int) -> u64 {
    if a + b > u64::MAX {
        u64::MAX
    } else {
        (a + b) as u64
    }
}

/// What one more open file of the device adds. Every client is counted once.
pub open spec fn with_description(usage: Usage, info: Option<(Seq<char>, u64)>) -> Usage {
    match info {
        Some((client, bytes)) => if usage.clients.contains(client) {
            Usage { seen: true, ..usage }
        } else {
            Usage {
                seen: true,
                clients: usage.clients.push(client),
                memory: Some(
                    saturated(
                        match usage.memory {
                            Some(memory) => memory as int,
                            None => 0,
                        },
                        bytes as int,
                    ),
                ),
            }
        },
        None => Usage { seen: true, ..usage },
    }
}

/// The client and memory that the description of an open file names. Only the files of the
/// `amdgpu` driver have one.
pub open spec fn described(file: OpenFile, driver: Seq<char>) -> Option<(Seq<char>, u64)> {
    match file.info {
        Some(info) => if driver == "amdgpu"@ {
            memory_in(info@)
        } else {
            None
        },
        None => None,
    }
}

/// What the open files show of the use of the device with the numbers `ids`.
pub open spec fn usage_of(files: Seq<OpenFile>, ids: NodeIds, driver: Seq<char>) -> Usage
    decreases files.len(),
{
    if files.len() == 0 {
        Usage { seen: false, clients: Seq::empty(), memory: None }
    } else {
        let before = usage_of(files.drop_last(), ids, driver);
        if opens(ids, files.last().node) {
            with_description(before, described(files.last(), driver))
        } else {
            before
        }
    }
}

fn is_counted(clients: &Vec<String>, client: &str) -> (r: bool)
    ensures
        r == texts(clients@).contains(client@),
{
    for i in 0..clients.len()
        invariant
            forall|j: int| 0 <= j < i ==> texts(clients@)[j] != client@,
    {
        assert(texts(clients@)[i as int] == clients@[i as int]@);
        if same(clients[i].as_str(), client) {
            return true;
        }
    }
    false
}

/// Whether the files show the device open, and the memory that they show.
fn find_usage(files: &Vec<OpenFile>, ids: &NodeIds, driver: &str) -> (r: (bool, Option<u64>))
    ensures
        r.0 == usage_of(files@, *ids, driver@).seen,
        r.1 == usage_of(files@, *ids, driver@).memory,
{
    let mut seen: bool = false;
    let mut clients: Vec<String> = Vec::new();
    let mut memory: Option<u64> = None;
    let has_info: bool = same(driver, "amdgpu");
    assert(texts(clients@) =~= Seq::empty());
    for i in 0..files.len()
        invariant
            has_info == (driver@ == "amdgpu"@),
            usage_of(files@.take(i as int), *ids, driver@) == (Usage {
                seen,
                clients: texts(clients@),
                memory,
            }),
    {
        assert(files@.take(i + 1).drop_last() =~= files@.take(i as int));
        if is_open(ids, files[i].node) {
            seen = true;
            if has_info {
                if let Some(info) = &files[i].info {
                    if let Some((client, bytes)) = fd_memory(info.as_str()) {
                        if !is_counted(&clients, client.as_str()) {
                            let ghost before = texts(clients@);
                            clients.push(client);
                            assert(texts(clients@) =~= before.push(client@));
                            let counted: u64 = match memory {
                                Some(memory) => memory,
                                None => 0,
                            };
                            memory = Some(counted.saturating_add(bytes));
                        }
                    }
                }
            }
        }
    }
    assert(files@.take(files@.len() as int) =~= files@);
    (seen, memory)
}

// ---------------------------------------------------------------------------
// Processes
// ---------------------------------------------------------------------------
/// The number of the process that an entry of the process directory is, if it is one.
pub open spec fn pid_of(entry: ProcEntry) -> Option<nat> {
    number(entry.name@, 10, u32::MAX as nat)
}

/// The number of the process that an entry with this name is, if it is one.
pub fn pid(name: &str) -> (r: Option<u32>)
    ensures
        match r {
            Some(pid) => number(name@, 10, u32::MAX as nat) == Some(pid as nat),
            None => number(name@, 10, u32::MAX as nat) is None,
        },
{
    match parse_number(name, 10, u32::MAX as u64) {
        Some(pid) => Some(pid as u32),
        None => None,
    }
}

/// What a process is called: its program, else its command name.
pub open spec fn process_name(entry: ProcEntry) -> Seq<char> {
    match entry.exe {
        Some(exe) => exe@,
        None => match entry.comm {
            Some(comm) => trimmed(comm@),
            None => "N/A"@,
        },
    }
}

fn name_process(entry: &ProcEntry) -> (r: String)
    ensures
        r@ == process_name(*entry),
{
    match &entry.exe {
        Some(exe) => exe.clone(),
        None => match &entry.comm {
            Some(comm) => trim(comm.as_str()),
            None => "N/A".to_owned(),
        },
    }
}

/// The rows of the process `pid` with the open files `files`, for the first `n` devices: one for
/// each device that it has open.
pub open spec fn rows_of(
    entry: ProcEntry,
    pid: int,
    files: Seq<OpenFile>,
    devices: Seq<DeviceView>,
    nodes: Seq<NodeIds>,
    n: int,
) -> Seq<ProcessView>
    decreases n,
{
    if n <= 0 {
        Seq::empty()
    } else {
        let before = rows_of(entry, pid, files, devices, nodes, n - 1);
        let usage = usage_of(files, nodes[n - 1], devices[n - 1].driver);
        if usage.seen {
            before.push(
                ProcessView {
                    gpu: devices[n - 1].index,
                    pid,
                    name: process_name(entry),
                    memory: usage.memory,
                },
            )
        } else {
            before
        }
    }
}

/// The rows of an entry of the process directory; none if it is no process, or its open files
/// could not be listed.
pub open spec fn entry_rows(
    entry: ProcEntry,
    devices: Seq<DeviceView>,
    nodes: Seq<NodeIds>,
) -> Seq<ProcessView> {
    match (pid_of(entry), entry.files) {
        (Some(pid), Some(files)) => rows_of(
            entry,
            pid as int,
            files@,
            devices,
            nodes,
            devices.len() as int,
        ),
        _ => Seq::empty(),
    }
}

/// The rows of the entries, one behind the other.
pub open spec fn all_rows(
    entries: Seq<ProcEntry>,
    devices: Seq<DeviceView>,
    nodes: Seq<NodeIds>,
) -> Seq<ProcessView>
    decreases entries.len(),
{
    if entries.len() == 0 {
        Seq::empty()
    } else {
        all_rows(entries.drop_last(), devices, nodes) + entry_rows(entries.last(), devices, nodes)
    }
}

fn list_entry(entry: &ProcEntry, devices: &[Device], nodes: &[NodeIds]) -> (r: Vec<Process>)
    requires
        nodes@.len() == devices@.len(),
    ensures
        views(r@) == entry_rows(*entry, views(devices@), nodes@),
{
    let mut r: Vec<Process> = Vec::new();
    let ghost all = views(devices@);
    assert(views(r@) =~= Seq::empty());
    let pid: u32 = match pid(entry.name.as_str()) {
        Some(pid) => pid,
        None => {
            return r;
        },
    };
    if let Some(files) = &entry.files {
        for i in 0..devices.len()
            invariant
                all == views(devices@),
                nodes@.len() == devices@.len(),
                views(r@) =~= rows_of(*entry, pid as int, files@, all, nodes@, i as int),
        {
            assert(all[i as int] == devices@[i as int]@);
            let (seen, memory) = find_usage(files, &nodes[i], devices[i].driver.as_str());
            if seen {
                let row: Process = Process {
                    gpu: devices[i].index,
                    pid,
                    name: name_process(entry),
                    memory,
                };
                let ghost before = views(r@);
                r.push(row);
                assert(views(r@) =~= before.push(row@));
            }
        }
    }
    r
}

/// The processes that have a device open. `nodes` are the numbers of the nodes of each device.
pub fn discover(devices: &[Device], nodes: &[NodeIds], entries: &[ProcEntry]) -> (r: Vec<Process>)
    requires
        nodes@.len() == devices@.len(),
    ensures
        views(r@) == sorted::<Process>(all_rows(entries@, views(devices@), nodes@)),
{
    let mut processes: Vec<Process> = Vec::new();
    for i in 0..entries.len()
        invariant
            nodes@.len() == devices@.len(),
            views(processes@) =~= all_rows(entries@.take(i as int), views(devices@), nodes@),
    {
        assert(entries@.take(i + 1).drop_last() =~= entries@.take(i as int));
        let mut rows: Vec<Process> = list_entry(&entries[i], devices, nodes);
        let ghost before = views(processes@);
        let ghost added = views(rows@);
        processes.append(&mut rows);
        assert(views(processes@) =~= before + added);
    }
    assert(entries@.take(entries@.len() as int) =~= entries@);
    sort(processes)
}

// ---------------------------------------------------------------------------
// Laws
// ---------------------------------------------------------------------------
/// A device counts as open exactly if one of the files is it.
pub proof fn seen_means_open(files: Seq<OpenFile>, ids: NodeIds, driver: Seq<char>)
    ensures
        usage_of(files, ids, driver).seen <==> exists|i: int|
            0 <= i < files.len() && opens(ids, (#[trigger] files[i]).node),
    decreases files.len(),
{
    if files.len() > 0 {
        let front = files.drop_last();
        seen_means_open(front, ids, driver);
        if exists|i: int| 0 <= i < front.len() && opens(ids, (#[trigger] front[i]).node) {
            let i = choose|i: int| 0 <= i < front.len() && opens(ids, (#[trigger] front[i]).node);
            assert(files[i] == front[i]);
        }
        if exists|i: int| 0 <= i < files.len() && opens(ids, (#[trigger] files[i]).node) {
            let i = choose|i: int| 0 <= i < files.len() && opens(ids, (#[trigger] files[i]).node);
            if i < front.len() {
                assert(files[i] == front[i]);
            } else {
                assert(files[i] == files.last());
            }
        }
        if opens(ids, files.last().node) {
            assert(files[files.len() - 1] == files.last());
        }
    }
}

/// A file that is not the device says nothing of its use, whatever its description says.
pub proof fn other_files_do_not_count(
    files: Seq<OpenFile>,
    file: OpenFile,
    ids: NodeIds,
    driver: Seq<char>,
)
    requires
        !opens(ids, file.node),
    ensures
        usage_of(files.push(file), ids, driver) == usage_of(files, ids, driver),
{
    assert(files.push(file).drop_last() =~= files);
}

/// A client is counted once: one more file of a client that was counted adds nothing.
pub proof fn clients_count_once(
    files: Seq<OpenFile>,
    file: OpenFile,
    ids: NodeIds,
    driver: Seq<char>,
)
    requires
        opens(ids, file.node),
        described(file, driver) matches Some((client, _)) && usage_of(
            files,
            ids,
            driver,
        ).clients.contains(client),
    ensures
        usage_of(files.push(file), ids, driver).memory == usage_of(files, ids, driver).memory,
        usage_of(files.push(file), ids, driver).clients == usage_of(files, ids, driver).clients,
{
    assert(files.push(file).drop_last() =~= files);
}

/// No client is counted twice, and memory is known exactly if a client was counted.
pub proof fn counted_clients_differ(files: Seq<OpenFile>, ids: NodeIds, driver: Seq<char>)
    ensures
        usage_of(files, ids, driver).clients.no_duplicates(),
        usage_of(files, ids, driver).memory is Some <==> usage_of(files, ids, driver).clients.len()
            > 0,
    decreases files.len(),
{
    if files.len() > 0 {
        counted_clients_differ(files.drop_last(), ids, driver);
    }
}

/// Only the files of the `amdgpu` driver tell of memory.
pub proof fn memory_is_of_amdgpu(files: Seq<OpenFile>, ids: NodeIds, driver: Seq<char>)
    requires
        driver != "amdgpu"@,
    ensures
        usage_of(files, ids, driver).memory is None,
    decreases files.len(),
{
    if files.len() > 0 {
        memory_is_of_amdgpu(files.drop_last(), ids, driver);
    }
}

/// The rows of one process are for different devices, and name that process.
proof fn lemma_rows_of(
    entry: ProcEntry,
    pid: int,
    files: Seq<OpenFile>,
    devices: Seq<DeviceView>,
    nodes: Seq<NodeIds>,
    n: int,
)
    requires
        0 <= n <= devices.len(),
        forall|i: int, j: int|
            0 <= i < j < devices.len() ==> (#[trigger] devices[i]).index != (
            #[trigger] devices[j]).index,
    ensures
        ({
            let rows = rows_of(entry, pid, files, devices, nodes, n);
            &&& distinct_ranks::<Process>(rows)
            &&& forall|i: int|
                0 <= i < rows.len() ==> (#[trigger] rows[i]).pid == pid && exists|k: int|
                    0 <= k < n && (#[trigger] devices[k]).index == rows[i].gpu
        }),
    decreases n,
{
    if n > 0 {
        lemma_rows_of(entry, pid, files, devices, nodes, n - 1);
        let before = rows_of(entry, pid, files, devices, nodes, n - 1);
        let rows = rows_of(entry, pid, files, devices, nodes, n);
        assert forall|i: int| 0 <= i < rows.len() implies (#[trigger] rows[i]).pid == pid
            && exists|k: int| 0 <= k < n && (#[trigger] devices[k]).index == rows[i].gpu by {
            if i < before.len() {
                assert(rows[i] == before[i]);
            } else {
                assert(devices[n - 1].index == rows[i].gpu);
            }
        }
        assert forall|i: int, j: int| 0 <= i < j < rows.len() implies !(Process::le(
            #[trigger] rows[i],
            #[trigger] rows[j],
        ) && Process::le(rows[j], rows[i])) by {
            assert(rows[i] == before[i]);
            if j < before.len() {
                assert(rows[j] == before[j]);
            } else {
                let k = choose|k: int|
                    0 <= k < n - 1 && (#[trigger] devices[k]).index == before[i].gpu;
                assert(devices[k].index != devices[n - 1].index);
            }
        }
    }
}

proof fn lemma_all_rows(entries: Seq<ProcEntry>, devices: Seq<DeviceView>, nodes: Seq<NodeIds>)
    requires
        forall|i: int, j: int|
            0 <= i < j < devices.len() ==> (#[trigger] devices[i]).index != (
            #[trigger] devices[j]).index,
        forall|i: int, j: int|
            0 <= i < j < entries.len() && pid_of(#[trigger] entries[i]) is Some ==> pid_of(
                entries[i],
            ) != pid_of(#[trigger] entries[j]),
    ensures
        ({
            let rows = all_rows(entries, devices, nodes);
            &&& distinct_ranks::<Process>(rows)
            &&& forall|i: int|
                0 <= i < rows.len() ==> exists|k: int|
                    0 <= k < entries.len() && pid_of(#[trigger] entries[k]) == Some(
                        (#[trigger] rows[i]).pid as nat,
                    ) && rows[i].pid >= 0
        }),
    decreases entries.len(),
{
    if entries.len() > 0 {
        let front = entries.drop_last();
        assert forall|i: int, j: int|
            0 <= i < j < front.len() && pid_of(#[trigger] front[i]) is Some implies pid_of(front[i])
            != pid_of(#[trigger] front[j]) by {
            assert(pid_of(entries[i]) != pid_of(entries[j]));
        }
        lemma_all_rows(front, devices, nodes);
        let before = all_rows(front, devices, nodes);
        let added = entry_rows(entries.last(), devices, nodes);
        let rows = all_rows(entries, devices, nodes);
        if let (Some(pid), Some(files)) = (pid_of(entries.last()), entries.last().files) {
            lemma_rows_of(
                entries.last(),
                pid as int,
                files@,
                devices,
                nodes,
                devices.len() as int,
            );
        }
        assert forall|i: int| 0 <= i < added.len() implies pid_of(entries.last()) == Some(
            (#[trigger] added[i]).pid as nat,
        ) && added[i].pid >= 0 by {}
        assert forall|i: int| 0 <= i < rows.len() implies exists|k: int|
            0 <= k < entries.len() && pid_of(#[trigger] entries[k]) == Some(
                (#[trigger] rows[i]).pid as nat,
            ) && rows[i].pid >= 0 by {
            if i < before.len() {
                assert(rows[i] == before[i]);
                let k = choose|k: int|
                    0 <= k < front.len() && pid_of(#[trigger] front[k]) == Some(
                        before[i].pid as nat,
                    ) && before[i].pid >= 0;
                assert(entries[k] == front[k]);
            } else {
                assert(rows[i] == added[i - before.len()]);
                assert(pid_of(entries[entries.len() - 1]) == Some(rows[i].pid as nat));
            }
        }
        assert forall|i: int, j: int| 0 <= i < j < rows.len() implies !(Process::le(
            #[trigger] rows[i],
            #[trigger] rows[j],
        ) && Process::le(rows[j], rows[i])) by {
            if j < before.len() {
                assert(rows[i] == before[i] && rows[j] == before[j]);
            } else if i >= before.len() {
                assert(rows[i] == added[i - before.len()]);
                assert(rows[j] == added[j - before.len()]);
            } else {
                assert(rows[i] == before[i]);
                assert(rows[j] == added[j - before.len()]);
                let k = choose|k: int|
                    0 <= k < front.len() && pid_of(#[trigger] front[k]) == Some(
                        before[i].pid as nat,
                    ) && before[i].pid >= 0;
                assert(pid_of(entries[k]) != pid_of(entries[entries.len() - 1]));
            }
        }
    }
}

/// A process has at most one row for each device, however many of its files are that device, and
/// the rows stand in the order of devices and process numbers.
pub proof fn one_row_per_process_and_device(
    entries: Seq<ProcEntry>,
    devices: Seq<DeviceView>,
    nodes: Seq<NodeIds>,
)
    requires
        forall|i: int, j: int|
            0 <= i < j < devices.len() ==> (#[trigger] devices[i]).index != (
            #[trigger] devices[j]).index,
        forall|i: int, j: int|
            0 <= i < j < entries.len() && pid_of(#[trigger] entries[i]) is Some ==> pid_of(
                entries[i],
            ) != pid_of(#[trigger] entries[j]),
    ensures
        ({
            let rows = sorted::<Process>(all_rows(entries, devices, nodes));
            forall|i: int, j: int|
                0 <= i < j < rows.len() ==> (#[trigger] rows[i]).gpu < (#[trigger] rows[j]).gpu || (
                rows[i].gpu == rows[j].gpu && rows[i].pid < rows[j].pid)
        }),
{
    let all = all_rows(entries, devices, nodes);
    let rows = sorted::<Process>(all);
    lemma_all_rows(entries, devices, nodes);
    sorted_is_stable::<Process>(all);
    sorted_keeps_ranks_distinct::<Process>(all);
    assert forall|i: int, j: int| 0 <= i < j < rows.len() implies (#[trigger] rows[i]).gpu < (
    #[trigger] rows[j]).gpu || (rows[i].gpu == rows[j].gpu && rows[i].pid < rows[j].pid) by {
        assert(Process::le(rows[i], rows[j]));
        assert(!(Process::le(rows[i], rows[j]) && Process::le(rows[j], rows[i])));
    }
}

proof fn lemma_row_is_among(
    entry: ProcEntry,
    pid: int,
    files: Seq<OpenFile>,
    devices: Seq<DeviceView>,
    nodes: Seq<NodeIds>,
    d: int,
    n: int,
)
    requires
        0 <= d < n <= devices.len(),
        usage_of(files, nodes[d], devices[d].driver).seen,
    ensures
        rows_of(entry, pid, files, devices, nodes, n).contains(
            ProcessView {
                gpu: devices[d].index,
                pid,
                name: process_name(entry),
                memory: usage_of(files, nodes[d], devices[d].driver).memory,
            },
        ),
    decreases n,
{
    let row = ProcessView {
        gpu: devices[d].index,
        pid,
        name: process_name(entry),
        memory: usage_of(files, nodes[d], devices[d].driver).memory,
    };
    let before = rows_of(entry, pid, files, devices, nodes, n - 1);
    let rows = rows_of(entry, pid, files, devices, nodes, n);
    if d < n - 1 {
        lemma_row_is_among(entry, pid, files, devices, nodes, d, n - 1);
        let i = choose|i: int| 0 <= i < before.len() && before[i] == row;
        assert(rows[i] == row);
    } else {
        assert(rows[rows.len() - 1] == row);
    }
}

proof fn lemma_rows_stay(
    entries: Seq<ProcEntry>,
    devices: Seq<DeviceView>,
    nodes: Seq<NodeIds>,
    e: int,
    row: ProcessView,
)
    requires
        0 <= e < entries.len(),
        entry_rows(entries[e], devices, nodes).contains(row),
    ensures
        all_rows(entries, devices, nodes).contains(row),
    decreases entries.len(),
{
    let before = all_rows(entries.drop_last(), devices, nodes);
    let added = entry_rows(entries.last(), devices, nodes);
    let rows = all_rows(entries, devices, nodes);
    if e < entries.len() - 1 {
        lemma_rows_stay(entries.drop_last(), devices, nodes, e, row);
        let i = choose|i: int| 0 <= i < before.len() && before[i] == row;
        assert(rows[i] == row);
    } else {
        let i = choose|i: int| 0 <= i < added.len() && added[i] == row;
        assert(rows[before.len() + i] == row);
    }
}

/// Every process that has a device open has a row for it.
pub proof fn every_user_has_a_row(
    entries: Seq<ProcEntry>,
    devices: Seq<DeviceView>,
    nodes: Seq<NodeIds>,
    e: int,
    d: int,
    f: int,
)
    requires
        0 <= e < entries.len(),
        0 <= d < devices.len(),
        nodes.len() == devices.len(),
        pid_of(entries[e]) is Some,
        entries[e].files matches Some(files) && 0 <= f < files@.len() && opens(
            nodes[d],
            files@[f].node,
        ),
    ensures
        ({
            let rows = sorted::<Process>(all_rows(entries, devices, nodes));
            rows.contains(
                ProcessView {
                    gpu: devices[d].index,
                    pid: (pid_of(entries[e])->0) as int,
                    name: process_name(entries[e]),
                    memory: usage_of(
                        (entries[e].files->0)@,
                        nodes[d],
                        devices[d].driver,
                    ).memory,
                },
            )
        }),
{
    let files = (entries[e].files->0)@;
    let pid = (pid_of(entries[e])->0) as int;
    let row = ProcessView {
        gpu: devices[d].index,
        pid,
        name: process_name(entries[e]),
        memory: usage_of(files, nodes[d], devices[d].driver).memory,
    };
    assert(opens(nodes[d], files[f].node));
    seen_means_open(files, nodes[d], devices[d].driver);
    lemma_row_is_among(entries[e], pid, files, devices, nodes, d, devices.len() as int);
    lemma_rows_stay(entries, devices, nodes, e, row);
    sorted_keeps_items::<Process>(all_rows(entries, devices, nodes));
}

proof fn lemma_row_comes_of_use(
    entry: ProcEntry,
    pid: int,
    files: Seq<OpenFile>,
    devices: Seq<DeviceView>,
    nodes: Seq<NodeIds>,
    n: int,
    row: ProcessView,
) -> (d: int)
    requires
        0 <= n <= devices.len(),
        rows_of(entry, pid, files, devices, nodes, n).contains(row),
    ensures
        0 <= d < n,
        usage_of(files, nodes[d], devices[d].driver).seen,
        row == (ProcessView {
            gpu: devices[d].index,
            pid,
            name: process_name(entry),
            memory: usage_of(files, nodes[d], devices[d].driver).memory,
        }),
    decreases n,
{
    let rows = rows_of(entry, pid, files, devices, nodes, n);
    let i = choose|i: int| 0 <= i < rows.len() && rows[i] == row;
    let before = rows_of(entry, pid, files, devices, nodes, n - 1);
    if i < before.len() {
        assert(before[i] == row);
        lemma_row_comes_of_use(entry, pid, files, devices, nodes, n - 1, row)
    } else {
        n - 1
    }
}

proof fn lemma_row_comes_of_entry(
    entries: Seq<ProcEntry>,
    devices: Seq<DeviceView>,
    nodes: Seq<NodeIds>,
    row: ProcessView,
) -> (e: int)
    requires
        all_rows(entries, devices, nodes).contains(row),
    ensures
        0 <= e < entries.len(),
        entry_rows(entries[e], devices, nodes).contains(row),
    decreases entries.len(),
{
    let rows = all_rows(entries, devices, nodes);
    let i = choose|i: int| 0 <= i < rows.len() && rows[i] == row;
    let before = all_rows(entries.drop_last(), devices, nodes);
    let added = entry_rows(entries.last(), devices, nodes);
    if i < before.len() {
        assert(before[i] == row);
        lemma_row_comes_of_entry(entries.drop_last(), devices, nodes, row)
    } else {
        assert(added[i - before.len()] == row);
        entries.len() - 1
    }
}

/// The row says what the entry `e` shows of the device `d`, of which it has the file `f` open.
pub open spec fn is_row_of(
    row: ProcessView,
    entries: Seq<ProcEntry>,
    devices: Seq<DeviceView>,
    nodes: Seq<NodeIds>,
    e: int,
    d: int,
    f: int,
) -> bool {
    &&& 0 <= e < entries.len()
    &&& 0 <= d < devices.len()
    &&& pid_of(entries[e]) == Some(row.pid as nat)
    &&& row.pid >= 0
    &&& entries[e].files matches Some(files) && {
        &&& 0 <= f < files@.len()
        &&& opens(nodes[d], files@[f].node)
        &&& row.memory == usage_of(files@, nodes[d], devices[d].driver).memory
    }
    &&& row.gpu == devices[d].index
    &&& row.name == process_name(entries[e])
}

/// Every row comes of a process whose open files could be listed, and of a file of it that is the
/// device.
pub proof fn every_row_has_a_user(
    entries: Seq<ProcEntry>,
    devices: Seq<DeviceView>,
    nodes: Seq<NodeIds>,
    row: ProcessView,
)
    requires
        sorted::<Process>(all_rows(entries, devices, nodes)).contains(row),
    ensures
        exists|e: int, d: int, f: int| #[trigger]
            is_row_of(row, entries, devices, nodes, e, d, f),
{
    sorted_keeps_items::<Process>(all_rows(entries, devices, nodes));
    let e = lemma_row_comes_of_entry(entries, devices, nodes, row);
    if let (Some(pid), Some(files)) = (pid_of(entries[e]), entries[e].files) {
        let d = lemma_row_comes_of_use(
            entries[e],
            pid as int,
            files@,
            devices,
            nodes,
            devices.len() as int,
            row,
        );
        seen_means_open(files@, nodes[d], devices[d].driver);
        let f = choose|f: int|
            0 <= f < files@.len() && opens(nodes[d], (#[trigger] files@[f]).node);
        assert(is_row_of(row, entries, devices, nodes, e, d, f));
    }
}

/// Only the descriptions of files that are the device say anything, and only with the `amdgpu`
/// driver: reading no others changes nothing.
pub proof fn other_descriptions_do_not_matter(
    files: Seq<OpenFile>,
    others: Seq<OpenFile>,
    ids: NodeIds,
    driver: Seq<char>,
)
    requires
        files.len() == others.len(),
        forall|i: int|
            0 <= i < files.len() ==> (#[trigger] files[i]).node == (#[trigger] others[i]).node && (
            opens(ids, files[i].node) && driver == "amdgpu"@ ==> files[i].info == others[i].info),
    ensures
        usage_of(files, ids, driver) == usage_of(others, ids, driver),
    decreases files.len(),
{
    if files.len() > 0 {
        let a = files.drop_last();
        let b = others.drop_last();
        assert forall|i: int| 0 <= i < a.len() implies (#[trigger] a[i]).node == (
        #[trigger] b[i]).node && (opens(ids, a[i].node) && driver == "amdgpu"@ ==> a[i].info
            == b[i].info) by {
            assert(files[i].node == others[i].node);
        }
        other_descriptions_do_not_matter(a, b, ids, driver);
        assert(files[files.len() - 1].node == others[files.len() - 1].node);
    }
}

/// An entry that has none of the devices open has no rows, whatever it is called.
pub proof fn other_names_do_not_matter(
    entry: ProcEntry,
    devices: Seq<DeviceView>,
    nodes: Seq<NodeIds>,
)
    requires
        nodes.len() == devices.len(),
        entry.files matches Some(files) ==> forall|i: int|
            0 <= i < files@.len() ==> !opens_any(nodes, (#[trigger] files@[i]).node),
    ensures
        entry_rows(entry, devices, nodes).len() == 0,
{
    let rows = entry_rows(entry, devices, nodes);
    if rows.len() > 0 {
        assert(rows.contains(rows[0]));
        let files = (entry.files->0)@;
        let d = lemma_row_comes_of_use(
            entry,
            (pid_of(entry)->0) as int,
            files,
            devices,
            nodes,
            devices.len() as int,
            rows[0],
        );
        seen_means_open(files, nodes[d], devices[d].driver);
        let f = choose|f: int| 0 <= f < files.len() && opens(nodes[d], (#[trigger] files[f]).node);
        assert(opens_any(nodes, files[f].node));
    }
}

/// A file is the device if it is the node of its card or its render node.
pub proof fn both_nodes_are_the_device(ids: NodeIds, number: u64)
    ensures
        ids.card == Some(number) || ids.render == Some(number) <==> opens(ids, Some(number)),
        !opens(ids, None),
{
}

/// Without files nothing is in use.
pub proof fn no_files_no_use(ids: NodeIds, driver: Seq<char>)
    ensures
        ({
            let usage = usage_of(Seq::empty(), ids, driver);
            !usage.seen && usage.clients.len() == 0 && usage.memory is None
        }),
{
}

/// One more file that is a device with the `amdgpu` driver, by either of its nodes, whose
/// description names a client that was not counted: the client is counted, and its bytes are added,
/// up to what 64 bits hold.
pub proof fn a_new_client_is_counted(
    files: Seq<OpenFile>,
    file: OpenFile,
    ids: NodeIds,
    number: u64,
    info: String,
    client: Seq<char>,
    bytes: u64,
)
    requires
        file.node == Some(number),
        ids.card == Some(number) || ids.render == Some(number),
        file.info == Some(info),
        memory_in(info@) == Some((client, bytes)),
        !usage_of(files, ids, "amdgpu"@).clients.contains(client),
    ensures
        ({
            let before = usage_of(files, ids, "amdgpu"@);
            let after = usage_of(files.push(file), ids, "amdgpu"@);
            let sum = bytes + match before.memory {
                Some(memory) => memory as int,
                None => 0int,
            };
            &&& after.seen
            &&& after.clients == before.clients.push(client)
            &&& after.memory matches Some(memory) && memory == if sum > 0xffff_ffff_ffff_ffff {
                0xffff_ffff_ffff_ffff
            } else {
                sum
            }
        }),
{
    assert(files.push(file).drop_last() =~= files);
}

/// One more file that is the device, but tells of no client, shows that it is in use, and nothing
/// else: its description could not be read or names no client, or the driver is not `amdgpu`.
pub proof fn a_file_without_a_client_only_shows_use(
    files: Seq<OpenFile>,
    file: OpenFile,
    ids: NodeIds,
    driver: Seq<char>,
    number: u64,
)
    requires
        file.node == Some(number),
        ids.card == Some(number) || ids.render == Some(number),
        driver != "amdgpu"@ || file.info is None || (file.info matches Some(info) && memory_in(
            info@,
        ) is None),
    ensures
        usage_of(files.push(file), ids, driver) == (Usage {
            seen: true,
            ..usage_of(files, ids, driver)
        }),
{
    assert(files.push(file).drop_last() =~= files);
}

/// The clients that are counted are those that the descriptions of the files of the device name, by
/// whichever of its nodes they were opened.
pub proof fn counted_clients_are_those_named(files: Seq<OpenFile>, ids: NodeIds)
    ensures
        forall|client: Seq<char>| #[trigger]
            usage_of(files, ids, "amdgpu"@).clients.contains(client) <==> exists|i: int|
                0 <= i < files.len() && names_client(#[trigger] files[i], ids, client),
    decreases files.len(),
{
    let clients = usage_of(files, ids, "amdgpu"@).clients;
    if files.len() > 0 {
        let front = files.drop_last();
        let before = usage_of(front, ids, "amdgpu"@).clients;
        counted_clients_are_those_named(front, ids);
        assert forall|client: Seq<char>| #[trigger] clients.contains(client) <==> exists|i: int|
            0 <= i < files.len() && names_client(#[trigger] files[i], ids, client) by {
            if clients.contains(client) {
                let k = choose|k: int| 0 <= k < clients.len() && clients[k] == client;
                if k < before.len() {
                    assert(before[k] == client);
                    assert(before.contains(client));
                    let i = choose|i: int|
                        0 <= i < front.len() && names_client(#[trigger] front[i], ids, client);
                    assert(names_client(files[i], ids, client));
                } else {
                    assert(names_client(files[files.len() - 1], ids, client));
                }
            }
            if exists|i: int| 0 <= i < files.len() && names_client(#[trigger] files[i], ids, client) {
                let i = choose|i: int|
                    0 <= i < files.len() && names_client(#[trigger] files[i], ids, client);
                if i < front.len() {
                    assert(names_client(front[i], ids, client));
                    assert(before.contains(client));
                    let k = choose|k: int| 0 <= k < before.len() && before[k] == client;
                    assert(clients[k] == client);
                } else if before.contains(client) {
                    let k = choose|k: int| 0 <= k < before.len() && before[k] == client;
                    assert(clients[k] == client);
                } else {
                    assert(clients[clients.len() - 1] == client);
                }
            }
        }
    }
}

/// The file is the device with the numbers `ids`, and its description names `client`.
pub open spec fn names_client(file: OpenFile, ids: NodeIds, client: Seq<char>) -> bool {
    &&& file.node is Some
    &&& file.node == ids.card || file.node == ids.render
    &&& file.info matches Some(info) && memory_in(info@) matches Some((named, _)) && named == client
}

proof fn lemma_last_value_is(lines: Seq<Seq<char>>, prefix: Seq<char>, k: int, value: Seq<char>)
    requires
        0 <= k < lines.len(),
        lines[k] == prefix + value,
        forall|i: int| k < i < lines.len() ==> !has_prefix(#[trigger] lines[i], prefix),
    ensures
        last_value(lines, prefix) == Some(value),
    decreases lines.len(),
{
    if k == lines.len() - 1 {
        assert(lines[k].take(prefix.len() as int) =~= prefix);
        assert(lines[k].skip(prefix.len() as int) =~= value);
    } else {
        assert(!has_prefix(lines[lines.len() - 1], prefix));
        lemma_last_value_is(lines.drop_last(), prefix, k, value);
    }
}

/// A description with a line of the client and a line of its memory, an amount of kibibytes in
/// decimal as the first word, names that client and 1024 bytes for each of them. Other lines do not
/// matter, but for later ones of the two kinds, and amounts that are no numbers.
pub proof fn descriptions_name_clients_and_bytes(
    text: Seq<char>,
    c: int,
    client: Seq<char>,
    m: int,
    amount: Seq<char>,
    kib: nat,
)
    requires
        0 <= c < lines_of(text).len(),
        0 <= m < lines_of(text).len(),
        lines_of(text)[c] == "drm-client-id:"@ + client,
        lines_of(text)[m] == "drm-memory-vram:"@ + amount,
        forall|i: int|
            c < i < lines_of(text).len() ==> !has_prefix(
                #[trigger] lines_of(text)[i],
                "drm-client-id:"@,
            ),
        forall|i: int|
            m < i < lines_of(text).len() ==> !has_prefix(
                #[trigger] lines_of(text)[i],
                "drm-memory-vram:"@,
            ),
        forall|i: int|
            0 <= i < m ==> (without_prefix(
                #[trigger] lines_of(text)[i],
                "drm-memory-vram:"@,
            ) matches Some(value) ==> (first_word_of(value) matches Some(word) && number(
                word,
                10,
                u64::MAX as nat,
            ) is Some)),
        first_word_of(amount) == Some(decimal_of(kib)),
        kib * 1024 <= 0xffff_ffff_ffff_ffff,
    ensures
        memory_in(text) matches Some((named, bytes)) && named == trimmed(client) && bytes == kib
            * 1024,
{
    let lines = lines_of(text);
    lemma_last_value_is(lines, "drm-client-id:"@, c, client);
    lemma_last_value_is(lines, "drm-memory-vram:"@, m, amount);
    decimal_reads_back(kib, u64::MAX as nat);
    assert(lines[m].skip("drm-memory-vram:"@.len() as int) =~= amount);
    assert(kibibytes(amount) == Some(kib));
    assert forall|i: int| 0 <= i < lines.len() implies (without_prefix(
        #[trigger] lines[i],
        "drm-memory-vram:"@,
    ) matches Some(value) ==> kibibytes(value) is Some) by {
        if i > m {
            assert(!has_prefix(lines[i], "drm-memory-vram:"@));
        }
    }
}

/// A description names none if one of its amounts is no number of 64 bits, or if the last of them
/// is of more bytes than 64 bits hold.
pub proof fn wrong_amounts_name_none(text: Seq<char>, m: int, amount: Seq<char>)
    requires
        0 <= m < lines_of(text).len(),
        lines_of(text)[m] == "drm-memory-vram:"@ + amount,
        match first_word_of(amount) {
            Some(word) => match number(word, 10, u64::MAX as nat) {
                Some(kib) => kib * 1024 > 0xffff_ffff_ffff_ffff && forall|i: int|
                    m < i < lines_of(text).len() ==> !has_prefix(
                        #[trigger] lines_of(text)[i],
                        "drm-memory-vram:"@,
                    ),
                None => true,
            },
            None => true,
        },
    ensures
        memory_in(text) is None,
{
    let lines = lines_of(text);
    prefixes_stand_before("drm-memory-vram:"@, amount);
    if kibibytes(amount) is None {
        assert(without_prefix(lines[m], "drm-memory-vram:"@) == Some(amount));
        assert(!amounts_are_numbers(lines));
    } else {
        lemma_last_value_is(lines, "drm-memory-vram:"@, m, amount);
    }
}

/// A description without a line of the client, or without one of its memory, names none.
pub proof fn incomplete_descriptions_name_none(text: Seq<char>, missing: Seq<char>)
    requires
        missing == "drm-client-id:"@ || missing == "drm-memory-vram:"@,
        forall|i: int|
            0 <= i < lines_of(text).len() ==> !has_prefix(#[trigger] lines_of(text)[i], missing),
    ensures
        memory_in(text) is None,
{
    lemma_no_value(lines_of(text), missing);
}

proof fn lemma_no_value(lines: Seq<Seq<char>>, prefix: Seq<char>)
    requires
        forall|i: int| 0 <= i < lines.len() ==> !has_prefix(#[trigger] lines[i], prefix),
    ensures
        last_value(lines, prefix) is None,
    decreases lines.len(),
{
    if lines.len() > 0 {
        assert(!has_prefix(lines[lines.len() - 1], prefix));
        lemma_no_value(lines.drop_last(), prefix);
    }
}

/// A process is called by its program; by the command name, without the white space round it, if
/// the program is not known; `N/A` if neither is.
pub proof fn processes_have_the_best_known_name(entry: ProcEntry)
    ensures
        entry.exe matches Some(exe) ==> process_name(entry) == exe@,
        entry.exe is None ==> (entry.comm matches Some(comm) ==> process_name(entry) == trimmed(
            comm@,
        )),
        entry.exe is None && entry.comm is None ==> process_name(entry) == seq!['N', '/', 'A'],
{
    reveal_strlit("N/A");
    assert("N/A"@ =~= seq!['N', '/', 'A']);
}

/// An entry is the process with the number that its name writes in decimal, and no other entry is a
/// process.
pub proof fn process_numbers_are_names(entry: ProcEntry, n: nat)
    requires
        entry.name@ == decimal_of(n),
    ensures
        n <= 0xffff_ffff ==> pid_of(entry) == Some(n),
        n > 0xffff_ffff ==> pid_of(entry) is None,
{
    decimal_reads_back(n, n);
    if n <= 0xffff_ffff {
        decimal_reads_back(n, u32::MAX as nat);
    }
}

/// What is said of a user of a device is what it holds, field by field.
pub proof fn processes_are_seen_by_their_fields(p: Process)
    ensures
        p@.gpu == p.gpu,
        p@.pid == p.pid,
        p@.name == p.name@,
        p@.memory == p.memory,
{
}

/// What is said of a client and its memory is what they are.
pub proof fn clients_are_seen_by_what_they_are(client: String, memory: u64)
    ensures
        client_view(Some((client, memory))) == Some((client@, memory)),
        client_view(None) is None,
{
}

} // verus!
