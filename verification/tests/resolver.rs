use storage_event_monitor::identity::{
    base_name, fetch_durable_name, id_for_devnode, id_for_dir_entries, id_for_path_id,
    DeviceInfo, DurableIdentity, IdDirEntry,
};

fn device(node: &str, syspath: &str, wwid: Option<&str>, serial: Option<&str>) -> DeviceInfo {
    DeviceInfo {
        node: node.to_string(),
        syspath: syspath.to_string(),
        wwid: wwid.map(|s| s.to_string()),
        serial: serial.map(|s| s.to_string()),
    }
}

#[test]
fn devnode_suffix_matches_bare_name() {
    let devices = vec![device("/dev/sdr", "/sys/devices/pci0000:00/host3/sdr", Some("0x5000c5008f3a"), None)];
    match id_for_devnode("sdr", &devices) {
        DurableIdentity::Wwid(w) => assert_eq!(w, "0x5000c5008f3a"),
        _ => panic!("expected a WWID"),
    }
}

#[test]
fn devnode_full_path_matches_exactly() {
    let devices = vec![device("/dev/sdr", "/sys/x", None, Some("S4X1"))];
    match id_for_devnode("/dev/sdr", &devices) {
        DurableIdentity::Serial(sn) => assert_eq!(sn, "S4X1"),
        _ => panic!("expected a serial number"),
    }
}

#[test]
fn devnode_match_is_case_exact() {
    let devices = vec![device("/dev/sdr", "/sys/x", Some("w"), None)];
    assert!(matches!(id_for_devnode("SDR", &devices), DurableIdentity::Absent));
}

#[test]
fn no_matching_device_yields_absent() {
    let devices = vec![device("/dev/sda", "/sys/a", Some("w"), None)];
    assert!(matches!(id_for_devnode("sdr", &devices), DurableIdentity::Absent));
}

#[test]
fn matching_device_without_identifiers_yields_absent() {
    let devices = vec![device("/dev/sdr", "/sys/x", None, None)];
    assert!(matches!(id_for_devnode("sdr", &devices), DurableIdentity::Absent));
}

#[test]
fn path_id_matches_inside_topology_path() {
    let devices = vec![device(
        "/dev/sdb",
        "/sys/devices/pci0000:00/0000:00:17.0/host3/target3:0:0/3:0:0:0/block/sdb",
        None,
        Some("WD-WCC4N"),
    )];
    match id_for_path_id("3:0:0:0", &devices) {
        DurableIdentity::Serial(sn) => assert_eq!(sn, "WD-WCC4N"),
        _ => panic!("expected a serial number"),
    }
}

#[test]
fn first_match_wins_on_nested_topology_paths() {
    // The first device's topology path is a substring of the second's; a
    // fragment matching both must answer with the first in enumeration order.
    let devices = vec![
        device("/dev/sda", "/sys/host3/3:0:0:0", Some("first"), None),
        device("/dev/sdb", "/sys/host3/3:0:0:0/deeper/3:0:0:0:1", Some("second"), None),
    ];
    match id_for_path_id("3:0:0:0", &devices) {
        DurableIdentity::Wwid(w) => assert_eq!(w, "first"),
        _ => panic!("expected a WWID"),
    }
}

#[test]
fn wwid_is_preferred_over_serial() {
    let d = device("/dev/sda", "/sys/a", Some("wwid-1"), Some("serial-1"));
    match fetch_durable_name(&d) {
        DurableIdentity::Wwid(w) => assert_eq!(w, "wwid-1"),
        _ => panic!("expected the WWID to win"),
    }
}

#[test]
fn identity_labels() {
    assert_eq!(DurableIdentity::Wwid("0x50".to_string()).label(), "WWID: 0x50");
    assert_eq!(DurableIdentity::Serial("S4".to_string()).label(), "SN: S4");
    assert_eq!(DurableIdentity::Absent.label(), "");
}

#[test]
fn base_name_reduces_to_final_segment() {
    assert_eq!(base_name("/dev/sdr"), "sdr");
    assert_eq!(base_name("sdr"), "sdr");
    assert_eq!(base_name("a/b/c"), "c");
    assert_eq!(base_name("/dev/"), "");
    assert_eq!(base_name(""), "");
}

#[test]
fn dir_lookup_reduces_reference_to_final_segment() {
    let entries = vec![
        IdDirEntry { name: "wwn-0x5000c5008f3a".to_string(), target: "../../sdg".to_string() },
    ];
    // A full path reference matches through its final segment alone.
    let r = id_for_dir_entries("/dev/sdg", &entries).expect("entry must match");
    assert_eq!(r, "wwn-0x5000c5008f3a");
    let r = id_for_dir_entries("sdg", &entries).expect("entry must match");
    assert_eq!(r, "wwn-0x5000c5008f3a");
}

#[test]
fn dir_lookup_first_match_wins() {
    let entries = vec![
        IdDirEntry { name: "scsi-350".to_string(), target: "../../sdg".to_string() },
        IdDirEntry { name: "wwn-0x50".to_string(), target: "../../sdg".to_string() },
    ];
    assert_eq!(id_for_dir_entries("sdg", &entries).unwrap(), "scsi-350");
}

#[test]
fn dir_lookup_without_match_yields_none() {
    let entries = vec![
        IdDirEntry { name: "wwn-0x50".to_string(), target: "../../sda".to_string() },
    ];
    assert!(id_for_dir_entries("/dev/sdg", &entries).is_none());
}
