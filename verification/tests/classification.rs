use storage_event_monitor::classify::classify;
use storage_event_monitor::event::{EventKind, Priority};
use storage_event_monitor::MSG_STORAGE_ID;

#[test]
fn target_block_error_line() {
    let line = "blk_update_request: critical medium error, dev sdr, sector 4656";
    let ev = classify(line, false, "").expect("target block error must classify");
    assert_eq!(ev.kind, EventKind::TargetBlockError);
    assert_eq!(ev.device_ref, "sdr");
    assert_eq!(ev.priority, Priority::Critical);
    assert_eq!(ev.state_label, "failing");
    assert_eq!(ev.detail, "Device block 4656 is in question!");
    assert_eq!(ev.reference_doc, "see: block/blk-core.c");
}

#[test]
fn unit_attention_line() {
    let line = "sd 3:0:0:0: Warning! Received an indication that the LUN assignments on this target have changed.";
    let ev = classify(line, false, "").expect("unit attention must classify");
    assert_eq!(ev.kind, EventKind::UnitAttentionNotice);
    assert_eq!(ev.device_ref, "3:0:0:0");
    assert_eq!(ev.priority, Priority::Info);
    assert_eq!(ev.state_label, "discovery");
    assert_eq!(ev.detail, "");
    assert_eq!(ev.reference_doc, "see: drivers/scsi/scsi_error.c");
}

#[test]
fn array_disk_failure_line() {
    let line = "md/raid1:md0: Disk failure on sdg1, disabling device.";
    let ev = classify(line, false, "").expect("disk failure must classify");
    assert_eq!(ev.kind, EventKind::ArrayDiskFailure);
    assert_eq!(ev.device_ref, "sdg1");
    assert_eq!(ev.priority, Priority::Alert);
    assert_eq!(ev.state_label, "degraded");
    assert_eq!(ev.reference_doc, "man 8 mdadm");
}

#[test]
fn array_disk_failure_without_partition() {
    let line = "md/raid1:md0: Disk failure on sdg, disabling device.";
    let ev = classify(line, false, "").expect("disk failure must classify");
    assert_eq!(ev.kind, EventKind::ArrayDiskFailure);
    assert_eq!(ev.device_ref, "sdg");
}

#[test]
fn array_recovery_start_line() {
    let line = "md: recovery of RAID array md0";
    let ev = classify(line, false, "").expect("recovery start must classify");
    assert_eq!(ev.kind, EventKind::ArrayRecoveryStart);
    assert_eq!(ev.device_ref, "");
    assert_eq!(ev.priority, Priority::Notice);
    assert_eq!(ev.state_label, "rebuilding");
    assert_eq!(ev.reference_doc, "man 8 mdadm");
}

#[test]
fn array_recovery_done_line() {
    let line = "md: md0: recovery done.";
    let ev = classify(line, false, "").expect("recovery done must classify");
    assert_eq!(ev.kind, EventKind::ArrayRecoveryDone);
    assert_eq!(ev.device_ref, "");
    assert_eq!(ev.priority, Priority::Notice);
    assert_eq!(ev.state_label, "rebuilt");
}

#[test]
fn own_annotation_is_never_an_event() {
    let line = "blk_update_request: critical medium error, dev sdr, sector 4656";
    assert!(classify(line, true, MSG_STORAGE_ID).is_none());
}

#[test]
fn foreign_message_id_still_classifies() {
    let line = "blk_update_request: critical medium error, dev sdr, sector 4656";
    let ev = classify(line, true, "0123456789abcdef0123456789abcdef");
    assert!(ev.is_some());
}

#[test]
fn unrelated_line_yields_no_event() {
    assert!(classify("Started Session 1 of user root.", false, "").is_none());
    assert!(classify("", false, "").is_none());
    assert!(classify("blk_update_request: oddly truncated", false, "").is_none());
    assert!(classify("md: bitmap resync", false, "").is_none());
}

#[test]
fn near_miss_lines_yield_no_event() {
    // Sector must be digits and end the line.
    assert!(classify("blk_update_request: critical medium error, dev sdr, sector 46x", false, "").is_none());
    assert!(classify("blk_update_request: critical medium error, dev sdr, sector 4656 more", false, "").is_none());
    // Device name must be lower-case letters.
    assert!(classify("blk_update_request: critical medium error, dev SDR, sector 4656", false, "").is_none());
    // The warning phrase must follow the topology token exactly.
    assert!(classify("sd 3:0:0:0: Warning? Received an indication that the target changed.", false, "").is_none());
    // Recovery-start is anchored: nothing may follow the array number.
    assert!(classify("md: recovery of RAID array md0 finished", false, "").is_none());
}

#[test]
fn severity_ranks_are_ordered() {
    assert_eq!(Priority::Critical.severity_rank(), 3);
    assert_eq!(Priority::Alert.severity_rank(), 2);
    assert_eq!(Priority::Notice.severity_rank(), 1);
    assert_eq!(Priority::Info.severity_rank(), 0);
    assert!(Priority::Critical.severity_rank() > Priority::Alert.severity_rank());
    assert!(Priority::Alert.severity_rank() > Priority::Notice.severity_rank());
    assert!(Priority::Notice.severity_rank() > Priority::Info.severity_rank());
}

#[test]
fn topology_token_stops_before_the_phrase_colon() {
    // The token before the warning phrase ends just before its colon, even
    // when the token itself holds colons and digits only.
    let line = "sd 30: Warning! Received an indication that the mode parameters changed.";
    let ev = classify(line, false, "").expect("unit attention must classify");
    assert_eq!(ev.device_ref, "30");
}

#[test]
fn target_error_description_may_hold_spaces_and_slashes() {
    let line = "blk_update_request: I/O error, dev sdb, sector 120";
    let ev = classify(line, false, "").expect("target block error must classify");
    assert_eq!(ev.kind, EventKind::TargetBlockError);
    assert_eq!(ev.device_ref, "sdb");
    assert_eq!(ev.detail, "Device block 120 is in question!");
}

#[test]
fn rules_apply_in_declared_order() {
    // A line is tested against the target-block-error rule before any other;
    // an unrelated line that begins like an array message but matches no
    // rule yields nothing.
    let line = "blk_update_request: critical medium error, dev sdr, sector 1";
    assert_eq!(classify(line, false, "").unwrap().kind, EventKind::TargetBlockError);
    assert!(classify("md: md0: resync done.", false, "").is_none());
}
