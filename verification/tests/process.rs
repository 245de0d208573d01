use radeon_smi::device::Device;
use radeon_smi::process::{
    discover, fd_memory, has_description, is_user, node_id, pid, NodeIds, OpenFile, ProcEntry,
};

fn device(index: usize, driver: &str) -> Device {
    Device {
        index,
        bus_id: String::new(),
        name: String::new(),
        driver: driver.to_owned(),
        sysfs: "/nonexistent".to_owned(),
        node: "/dev/null".to_owned(),
        card: "nonexistent".to_owned(),
    }
}

fn nodes(card: u64, render: u64) -> NodeIds {
    NodeIds {
        card: Some(card),
        render: Some(render),
    }
}

fn file(node: u64, info: &str) -> OpenFile {
    OpenFile {
        node: Some(node),
        info: Some(info.to_owned()),
    }
}

fn process(pid: &str, files: Vec<OpenFile>) -> ProcEntry {
    ProcEntry {
        name: pid.to_owned(),
        files: Some(files),
        exe: Some(format!("program{pid}")),
        comm: Some("comm\n".to_owned()),
    }
}

fn client(id: u32, kib: u64) -> String {
    format!("pos:\t0\ndrm-client-id:\t{id}\ndrm-memory-vram:\t{kib} KiB\n")
}

#[test]
fn parses_amdgpu_fdinfo_memory() {
    assert_eq!(
        fd_memory("drm-client-id:\t93\ndrm-memory-vram:\t84792 KiB\n"),
        Some(("93".to_owned(), 84792 * 1024))
    );
    assert_eq!(fd_memory("drm-client-id:\t93\n"), None);
}

#[test]
fn descriptions_that_cannot_be_used_name_nothing() {
    assert_eq!(fd_memory(""), None);
    assert_eq!(fd_memory("drm-memory-vram:\t1 KiB\n"), None);
    assert_eq!(fd_memory("drm-client-id: 1\ndrm-memory-vram:\n"), None);
    assert_eq!(fd_memory("drm-client-id: 1\ndrm-memory-vram: x\n"), None);
    assert_eq!(
        fd_memory("drm-memory-vram: x\ndrm-client-id: 1\ndrm-memory-vram: 1\n"),
        None
    );
    assert_eq!(
        fd_memory("drm-client-id: 1\ndrm-memory-vram: 18014398509481984 KiB\n"),
        None
    );
    assert_eq!(
        fd_memory("drm-client-id: 1\ndrm-memory-vram: 18014398509481983 KiB\n"),
        Some(("1".to_owned(), 18014398509481983 * 1024))
    );
}

#[test]
fn the_last_line_of_a_kind_counts() {
    assert_eq!(
        fd_memory("drm-client-id: 1\ndrm-client-id: 2\ndrm-memory-vram: 1\ndrm-memory-vram: 3\n"),
        Some(("2".to_owned(), 3072))
    );
}

#[test]
fn only_character_devices_have_a_node_number() {
    assert_eq!(node_id(true, 57_984), Some(57_984));
    assert_eq!(node_id(false, 57_984), None);
}

#[test]
fn a_device_opened_twice_has_one_row() {
    let entries = vec![process("42", vec![file(5, ""), file(5, ""), file(9, "")])];
    let mine = discover(&[device(0, "")], &[nodes(4, 5)], &entries);
    assert_eq!(mine.len(), 1);
    assert_eq!((mine[0].gpu, mine[0].pid), (0, 42));
    assert_eq!(mine[0].name, "program42");
    assert_eq!(mine[0].memory, None);
}

#[test]
fn rows_stand_in_the_order_of_devices_and_processes() {
    let entries = vec![
        process("30", vec![file(1, ""), file(2, "")]),
        process("self", vec![file(1, "")]),
        process("4", vec![file(2, "")]),
        process("12", vec![file(1, ""), file(7, "")]),
        ProcEntry {
            name: "5".to_owned(),
            files: None,
            exe: None,
            comm: None,
        },
    ];
    let devices = [device(0, "amdgpu"), device(1, "radeon")];
    let found = discover(&devices, &[nodes(1, 11), nodes(2, 12)], &entries);
    let rows: Vec<(usize, u32)> = found.iter().map(|p| (p.gpu, p.pid)).collect();
    assert_eq!(rows, vec![(0, 12), (0, 30), (1, 4), (1, 30)]);
}

#[test]
fn every_client_is_counted_once() {
    let entries = vec![process(
        "1",
        vec![
            file(1, &client(7, 100)),
            file(11, &client(7, 100)),
            file(1, &client(8, 20)),
            file(3, &client(9, 500)),
            file(1, "nothing"),
            OpenFile {
                node: Some(1),
                info: None,
            },
        ],
    )];
    let found = discover(&[device(0, "amdgpu")], &[nodes(1, 11)], &entries);
    assert_eq!(found[0].memory, Some(120 * 1024));
}

#[test]
fn memory_does_not_run_over() {
    let much = 18014398509481983;
    let entries = vec![process(
        "1",
        vec![file(1, &client(7, much)), file(1, &client(8, much))],
    )];
    let found = discover(&[device(0, "amdgpu")], &[nodes(1, 11)], &entries);
    assert_eq!(found[0].memory, Some(u64::MAX));
}

#[test]
fn only_amdgpu_tells_of_memory() {
    let entries = vec![process("1", vec![file(1, &client(7, 100))])];
    let found = discover(&[device(0, "radeon")], &[nodes(1, 11)], &entries);
    assert_eq!(found[0].memory, None);
}

#[test]
fn files_that_are_no_devices_do_not_count() {
    let entries = vec![process(
        "1",
        vec![OpenFile {
            node: None,
            info: Some(client(7, 100)),
        }],
    )];
    let unknown = NodeIds {
        card: None,
        render: None,
    };
    assert!(discover(&[device(0, "amdgpu")], &[unknown], &entries).is_empty());
}

#[test]
fn processes_are_named_by_program_or_command() {
    let mut by_command = process("2", vec![file(1, "")]);
    by_command.exe = None;
    let mut unnamed = process("3", vec![file(1, "")]);
    unnamed.exe = None;
    unnamed.comm = None;
    let entries = vec![process("1", vec![file(1, "")]), by_command, unnamed];
    let found = discover(&[device(0, "amdgpu")], &[nodes(1, 11)], &entries);
    let names: Vec<&str> = found.iter().map(|p| p.name.as_str()).collect();
    assert_eq!(names, vec!["program1", "comm", "N/A"]);
}

#[test]
fn numbers_too_great_for_a_process_are_none() {
    let entries = vec![
        process("4294967296", vec![file(1, "")]),
        process("4294967295", vec![file(1, "")]),
    ];
    let found = discover(&[device(0, "amdgpu")], &[nodes(1, 11)], &entries);
    assert_eq!(found.len(), 1);
    assert_eq!(found[0].pid, u32::MAX);
}

#[test]
fn only_files_of_devices_are_worth_reading() {
    let ids = [nodes(1, 11), nodes(2, 12)];
    let devices = [device(0, "amdgpu"), device(1, "radeon")];
    assert!(has_description(&devices, &ids, Some(1)));
    assert!(has_description(&devices, &ids, Some(11)));
    assert!(!has_description(&devices, &ids, Some(2)));
    assert!(!has_description(&devices, &ids, Some(3)));
    assert!(!has_description(&devices, &ids, None));
    assert!(is_user(&ids, &[file(9, ""), file(2, "")]));
    assert!(!is_user(&ids, &[file(9, "")]));
    assert!(!is_user(&ids, &[]));
    assert_eq!(pid("42"), Some(42));
    assert_eq!(pid("self"), None);
    assert_eq!(pid("4294967296"), None);
}

#[test]
fn what_is_not_worth_reading_does_not_matter() {
    let mut unread = process("7", vec![file(9, &client(1, 5)), file(1, &client(2, 6))]);
    let full = discover(&[device(0, "amdgpu")], &[nodes(1, 11)], &[unread]);
    unread = process("7", vec![file(9, ""), file(1, &client(2, 6))]);
    unread.comm = None;
    let lazy = discover(&[device(0, "amdgpu")], &[nodes(1, 11)], &[unread]);
    assert_eq!(full.len(), 1);
    assert_eq!(lazy.len(), 1);
    assert_eq!(full[0].name, lazy[0].name);
    assert_eq!(full[0].memory, lazy[0].memory);
    assert_eq!(lazy[0].memory, Some(6 * 1024));
}
