use radeon_smi::device::{
    discover, discover_at, join_path, named_card, named_render_node, read_hex, read_number,
    read_string, DrmEntry, Metrics, AMD_VENDOR,
};
use radeon_smi::drm::{
    amdgpu_info, drm_iow, drm_iowr, radeon_info, sensor_data, status_register_data, AmdgpuInfo,
    GemInfo, RadeonInfo, AMDGPU_INFO, AMDGPU_INFO_SENSOR, AMDGPU_INFO_SIZE, DRM_COMMAND_BASE,
    GEM_INFO_SIZE, INFO_VRAM_USAGE, IOCTL_AMDGPU_INFO, IOCTL_GEM_INFO, IOCTL_INFO,
    RADEON_GEM_INFO, RADEON_INFO, RADEON_INFO_SIZE,
};
use radeon_smi::pci::pci_name;

const IDS: &str = "# The PCI id database\n\
\n\
1001  Some other vendor\n\
\t6613  Not this one\n\
1002  Advanced Micro Devices, Inc. [AMD/ATI]\n\
\t6610  Oland XT\n\
\t\t1043 0470  Board of the other device\n\
\t6613  Oland PRO [Radeon R7 240/340]  \n\
# boards\n\
\t\t1043 0471  Radeon R7 240 Board\n\
\n\
\t\t148c 7340  Radeon R7 340\n\
\t6617  Next\n\
\t\t1043 9999  Board of the next device\n\
1003  ULSI Systems\n\
\t6613  Not this one either\n";

fn text(s: &str) -> Option<String> {
    Some(s.to_owned())
}

fn card(name: &str, bus: &str, driver: &str) -> DrmEntry {
    DrmEntry {
        name: name.to_owned(),
        vendor: text("0x1002\n"),
        device: text("0x6613\n"),
        subsystem_vendor: text("0x148c\n"),
        subsystem_device: text("0x7340\n"),
        uevent: Some(format!("DRIVER={driver}\nPCI_CLASS=30000\n")),
        target: Some(format!("/sys/devices/pci/{bus}").into_bytes()),
        target_name: text(bus),
    }
}

fn render(name: &str, bus: &str) -> DrmEntry {
    DrmEntry {
        name: name.to_owned(),
        vendor: None,
        device: None,
        subsystem_vendor: None,
        subsystem_device: None,
        uevent: None,
        target: Some(format!("/sys/devices/pci/{bus}").into_bytes()),
        target_name: text(bus),
    }
}

#[test]
fn amdgpu_info_matches_linux_drm_uapi() {
    assert_eq!(std::mem::size_of::<AmdgpuInfo>(), 32);
    assert_eq!(IOCTL_AMDGPU_INFO, 0x4020_6445);
}

#[test]
fn request_numbers_are_those_of_their_requests() {
    assert_eq!(std::mem::size_of::<GemInfo>(), GEM_INFO_SIZE);
    assert_eq!(std::mem::size_of::<RadeonInfo>(), RADEON_INFO_SIZE);
    assert_eq!(std::mem::size_of::<AmdgpuInfo>(), AMDGPU_INFO_SIZE);
    assert_eq!(
        IOCTL_GEM_INFO,
        drm_iowr(DRM_COMMAND_BASE + RADEON_GEM_INFO, GEM_INFO_SIZE)
    );
    assert_eq!(
        IOCTL_INFO,
        drm_iowr(DRM_COMMAND_BASE + RADEON_INFO, RADEON_INFO_SIZE)
    );
    assert_eq!(
        IOCTL_AMDGPU_INFO,
        drm_iow(DRM_COMMAND_BASE + AMDGPU_INFO, AMDGPU_INFO_SIZE)
    );
    assert_eq!(IOCTL_GEM_INFO, 0xc018_645c);
    assert_eq!(IOCTL_INFO, 0xc010_6467);
}

#[test]
fn questions_carry_what_the_drivers_expect() {
    let info = radeon_info(INFO_VRAM_USAGE, 0x7000);
    assert_eq!((info.request, info.pad, info.value), (0x1e, 0, 0x7000));
    let info = amdgpu_info(AMDGPU_INFO_SENSOR, sensor_data(3), 0x7000, 4);
    assert_eq!((info.return_pointer, info.return_size, info.query), (0x7000, 4, 0x1d));
    assert_eq!(info.data, [3, 0, 0, 0]);
    assert_eq!(status_register_data(), [0x2004, 1, u32::MAX, 0]);
}

#[test]
fn attribute_files_are_trimmed_and_read() {
    assert_eq!(read_string(" enabled\n"), "enabled");
    assert_eq!(read_number("2147483648\n"), Some(2_147_483_648));
    assert_eq!(read_number("n/a\n"), None);
    assert_eq!(read_number(""), None);
    assert_eq!(read_hex("0x1002\n"), Some(AMD_VENDOR));
    assert_eq!(read_hex("1002"), Some(0x1002));
    assert_eq!(read_hex("0x0x1002"), Some(0x1002));
    assert_eq!(read_hex("0X1002"), None);
    assert_eq!(read_hex("0x10002"), None);
    assert_eq!(read_hex("0x"), None);
    assert_eq!(read_hex("+12"), Some(0x12));
}

#[test]
fn nothing_is_known_of_default_metrics() {
    let m = Metrics::default();
    assert!(m.temperature_c.is_none() && m.utilization.is_none() && m.memory_total.is_none());
    assert!(m.power_watts.is_none() && m.display_active.is_none() && m.issue.is_none());
}

#[test]
fn paths_are_joined() {
    assert_eq!(join_path("/dev/dri", "card0"), "/dev/dri/card0");
    assert_eq!(join_path("/dev/dri/", "card0"), "/dev/dri/card0");
    assert_eq!(join_path("", "card0"), "card0");
    assert_eq!(join_path("/dev", "/abs"), "/abs");
}

#[test]
fn boards_are_named_by_the_database() {
    assert_eq!(pci_name(IDS, 0x6613, 0x148c, 0x7340), text("Radeon R7 340"));
    assert_eq!(pci_name(IDS, 0x6613, 0x1043, 0x0471), text("Radeon R7 240 Board"));
    assert_eq!(
        pci_name(IDS, 0x6613, 0x1043, 0x9999),
        text("Oland PRO [Radeon R7 240/340]")
    );
    assert_eq!(
        pci_name(IDS, 0x6613, 0x1043, 0x0470),
        text("Oland PRO [Radeon R7 240/340]")
    );
    assert_eq!(pci_name(IDS, 0x6610, 0x1043, 0x0470), text("Board of the other device"));
    assert_eq!(pci_name(IDS, 0x1234, 0x1043, 0x0470), None);
    assert_eq!(pci_name("", 0x6613, 0, 0), None);
}

#[test]
fn only_amd_is_looked_up() {
    assert_eq!(pci_name("1003  ULSI\n\t6613  Other\n", 0x6613, 0, 0), None);
}

#[test]
fn comments_do_not_matter() {
    let mut plain = String::new();
    for line in IDS.lines() {
        if !line.starts_with('#') && !line.is_empty() {
            plain.push_str(line);
            plain.push('\n');
        }
    }
    for (vendor, board) in [(0x148c, 0x7340), (0x1043, 0x0471), (0, 0)] {
        assert_eq!(
            pci_name(IDS, 0x6613, vendor, board),
            pci_name(&plain, 0x6613, vendor, board)
        );
    }
}

#[test]
fn devices_are_numbered_in_the_order_of_their_bus_ids() {
    let entries = vec![
        render("renderD128", "0000:09:00.0"),
        card("card1", "0000:09:00.0", "amdgpu"),
        card("card1-HDMI-A-1", "0000:09:00.0", "amdgpu"),
        card("card0", "0000:01:00.0", "radeon"),
        render("version", "0000:01:00.0"),
        card("card2", "0000:05:00.0", "nouveau"),
    ];
    let found = discover(&entries, &text(IDS));
    assert_eq!(found.len(), 2);
    assert_eq!(found[0].index, 0);
    assert_eq!(found[0].bus_id, "0000:01:00.0");
    assert_eq!(found[0].card, "card0");
    assert_eq!(found[0].driver, "radeon");
    assert_eq!(found[0].name, "Radeon R7 340");
    assert_eq!(found[0].sysfs, "/sys/class/drm/card0/device");
    assert_eq!(found[0].node, "/dev/dri/card0");
    assert_eq!(found[1].index, 1);
    assert_eq!(found[1].bus_id, "0000:09:00.0");
    assert_eq!(found[1].node, "/dev/dri/renderD128");
}

#[test]
fn entries_that_are_no_supported_cards_are_left_out() {
    let mut other_vendor = card("card0", "a", "amdgpu");
    other_vendor.vendor = text("0x10de");
    let mut no_vendor = card("card1", "b", "amdgpu");
    no_vendor.vendor = None;
    let mut no_device = card("card2", "c", "amdgpu");
    no_device.device = text("?");
    let mut no_driver = card("card3", "d", "amdgpu");
    no_driver.uevent = None;
    let mut no_driver_line = card("card4", "e", "amdgpu");
    no_driver_line.uevent = text("PCI_CLASS=30000");
    let entries = vec![
        other_vendor,
        no_vendor,
        no_device,
        no_driver,
        no_driver_line,
        card("card5x", "f", "amdgpu"),
        card("car6", "g", "amdgpu"),
    ];
    assert!(discover(&entries, &None).is_empty());
}

#[test]
fn what_cannot_be_read_has_a_stand_in() {
    let mut lost = card("card7", "x", "amdgpu");
    lost.target = None;
    lost.target_name = None;
    lost.subsystem_vendor = None;
    lost.subsystem_device = None;
    let mut node = render("renderD129", "y");
    node.target = None;
    let entries = vec![node, lost];
    let found = discover_at("/drm", "/nodes", &entries, &None);
    assert_eq!(found.len(), 1);
    assert_eq!(found[0].bus_id, "unknown");
    assert_eq!(found[0].name, "AMD GPU [1002:6613]");
    assert_eq!(found[0].node, "/nodes/card7");
    assert_eq!(found[0].sysfs, "/drm/card7/device");
}

#[test]
fn devices_of_one_bus_id_keep_their_order() {
    let entries = vec![
        card("card9", "same", "amdgpu"),
        card("card3", "same", "amdgpu"),
        card("card5", "earlier", "amdgpu"),
    ];
    let found = discover(&entries, &None);
    let cards: Vec<&str> = found.iter().map(|d| d.card.as_str()).collect();
    assert_eq!(cards, vec!["card5", "card9", "card3"]);
}

#[test]
fn the_first_driver_line_counts() {
    let mut entry = card("card0", "a", "amdgpu");
    entry.uevent = text("X=1\r\nDRIVER=radeon\r\nDRIVER=amdgpu\n");
    let found = discover(&[entry], &None);
    assert_eq!(found[0].driver, "radeon");
}

#[test]
fn cards_and_render_nodes_have_their_names() {
    assert!(named_card("card0") && named_card("card12") && named_card("card"));
    assert!(!named_card("card0-DP-1") && !named_card("renderD128") && !named_card("car"));
    assert!(named_render_node("renderD128") && !named_render_node("card0"));
}

#[test]
fn other_entries_do_not_matter() {
    let mut connector = card("card0-DP-1", "elsewhere", "amdgpu");
    let full = discover(&[card("card0", "a", "amdgpu"), connector], &text(IDS));
    connector = render("card0-DP-1", "nowhere");
    connector.target = None;
    let lazy = discover(&[card("card0", "a", "amdgpu"), connector], &text(IDS));
    assert_eq!(full.len(), 1);
    assert_eq!(lazy.len(), 1);
    assert_eq!((&full[0].name, &full[0].node), (&lazy[0].name, &lazy[0].node));
}

#[test]
fn a_device_needs_a_line_in_a_section_of_amd() {
    assert_eq!(pci_name("\t6613  Stray\n1002  AMD\n", 0x6613, 0, 0), None);
    assert_eq!(pci_name("1002  AMD\n\t6613   Spaced  \n", 0x6613, 0, 0), text("Spaced"));
    assert_eq!(
        pci_name("1002  AMD\n\t6613  First\n\t6613  Last\n", 0x6613, 0, 0),
        text("Last")
    );
    assert_eq!(
        pci_name(
            "1002  AMD\n\t6613  A\n1003  B\n1002  AMD\n\t6613  C\n",
            0x6613,
            0,
            0
        ),
        text("A")
    );
    assert_eq!(
        pci_name("1002  AMD\n\t6613  A\n\t6614  B\n\t\t0001 0002  Other\n", 0x6613, 1, 2),
        text("A")
    );
}
