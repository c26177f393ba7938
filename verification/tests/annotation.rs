use storage_event_monitor::annotate::{
    compose_event_annotation, hotplug_annotation, AnnotationLog, HotplugKind,
};
use storage_event_monitor::classify::classify;
use storage_event_monitor::event::Priority;
use storage_event_monitor::identity::{DeviceInfo, DurableIdentity};
use storage_event_monitor::MSG_STORAGE_ID;

fn device(node: &str, wwid: Option<&str>, serial: Option<&str>) -> DeviceInfo {
    DeviceInfo {
        node: node.to_string(),
        syspath: "/sys/devices/example".to_string(),
        wwid: wwid.map(|s| s.to_string()),
        serial: serial.map(|s| s.to_string()),
    }
}

#[test]
fn event_annotation_carries_all_fields() {
    let line = "blk_update_request: critical medium error, dev sdr, sector 4656";
    let ev = classify(line, false, "").unwrap();
    let identity = DurableIdentity::Wwid("0x5000c5008f3a".to_string());
    let rec = compose_event_annotation(&ev, &identity, line);
    assert_eq!(rec.idempotency_id, MSG_STORAGE_ID);
    assert_eq!(
        rec.message,
        "Storage addendum for (blk_update_request: critical medium error, dev sdr, sector 4656)"
    );
    assert_eq!(rec.source, "kernel");
    assert_eq!(rec.source_doc, "see: block/blk-core.c");
    assert_eq!(rec.device, "sdr");
    assert_eq!(rec.device_identity, "WWID: 0x5000c5008f3a");
    assert_eq!(rec.state_label, "failing");
    assert_eq!(rec.priority, Priority::Critical);
    assert_eq!(rec.detail, "Device block 4656 is in question!");
}

#[test]
fn absent_identity_leaves_the_field_empty() {
    let line = "md: recovery of RAID array md0";
    let ev = classify(line, false, "").unwrap();
    let rec = compose_event_annotation(&ev, &DurableIdentity::Absent, line);
    assert_eq!(rec.device_identity, "");
    assert_eq!(rec.device, "");
    assert_eq!(rec.state_label, "rebuilding");
}

#[test]
fn added_device_without_identity_is_not_annotated() {
    let d = device("/dev/sdq", None, None);
    assert!(hotplug_annotation(HotplugKind::Added, &d).is_none());
}

#[test]
fn added_device_with_identity_is_annotated() {
    let d = device("/dev/sdq", Some("0x50014ee2"), None);
    let rec = hotplug_annotation(HotplugKind::Added, &d).expect("must annotate");
    assert_eq!(rec.message, "Annotation: Storage device added");
    assert_eq!(rec.source, "storage_event_monitor");
    assert_eq!(rec.device, "/dev/sdq");
    assert_eq!(rec.device_identity, "WWID: 0x50014ee2");
    assert_eq!(rec.state_label, "discovery");
    assert_eq!(rec.priority, Priority::Info);
    assert_eq!(rec.idempotency_id, MSG_STORAGE_ID);
}

#[test]
fn removed_device_without_identity_is_still_annotated() {
    let d = device("/dev/sdq", None, None);
    let rec = hotplug_annotation(HotplugKind::Removed, &d).expect("removal is always annotated");
    assert_eq!(rec.message, "Annotation: Storage device removed");
    assert_eq!(rec.device_identity, "Unknown");
}

#[test]
fn removed_device_with_serial_is_annotated_with_it() {
    let d = device("/dev/sdq", None, Some("S4X1NX0K"));
    let rec = hotplug_annotation(HotplugKind::Removed, &d).unwrap();
    assert_eq!(rec.device_identity, "SN: S4X1NX0K");
}

#[test]
fn other_notifications_are_ignored() {
    let d = device("/dev/sdq", Some("w"), None);
    assert!(hotplug_annotation(HotplugKind::Other, &d).is_none());
}

#[test]
fn emission_is_not_deduplicated() {
    let line = "md/raid1:md0: Disk failure on sdg1, disabling device.";
    let ev = classify(line, false, "").unwrap();
    let mut log = AnnotationLog::new();
    let first = compose_event_annotation(&ev, &DurableIdentity::Absent, line);
    let second = compose_event_annotation(&ev, &DurableIdentity::Absent, line);
    log.emit(first);
    log.emit(second);
    assert_eq!(log.records.len(), 2);
    assert_eq!(log.records[0].message, log.records[1].message);
    assert_eq!(log.records[0].device, "sdg1");
    assert_eq!(log.records[1].device, "sdg1");
}
