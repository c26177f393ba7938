//! Composition of annotation records from classified events and resolved
//! identities, the hotplug add/remove annotation decision, and an in-memory
//! annotation log of the shape the log backend exposes.

use vstd::prelude::*;
use vstd::string::{StrSliceExecFns, StringExecFns};
use crate::event::{Priority, StorageEvent};
use crate::identity::{fetch_durable_name, DeviceInfo, DurableIdentity, spec_identity_label};

verus! {

/// The record written back into the log: the raw message with storage
/// context attached, stamped with the fixed idempotency identifier.
pub struct AnnotationRecord {
    /// Always the fixed identifier of this system; never anything else.
    pub idempotency_id: String,
    /// Human-readable composite naming the annotated message.
    pub message: String,
    /// The subsystem the annotated message came from.
    pub source: String,
    /// Pointer to documentation of that subsystem; may be empty.
    pub source_doc: String,
    /// The device reference as the event carried it.
    pub device: String,
    /// The resolved durable identity's label; may be empty.
    pub device_identity: String,
    /// The event's status token.
    pub state_label: String,
    /// The event's severity.
    pub priority: Priority,
    /// Supplementary message; may be empty.
    pub detail: String,
}

/// Every record this system writes carries the fixed idempotency
/// identifier.
pub open spec fn record_tagged(r: AnnotationRecord) -> bool {
    r.idempotency_id@ == crate::MSG_STORAGE_ID@
}

/// Composes the annotation for a classified storage event: the raw line
/// wrapped in the addendum message, the event's fields, and the resolved
/// identity's label.
pub fn compose_event_annotation(
    event: &StorageEvent,
    identity: &DurableIdentity,
    raw_line: &str,
) -> (r: AnnotationRecord)
    ensures
        record_tagged(r),
        r.message@ == "Storage addendum for ("@ + raw_line@ + ")"@,
        r.source@ == "kernel"@,
        r.source_doc@ == event.reference_doc@,
        r.device@ == event.device_ref@,
        r.device_identity@ == spec_identity_label(*identity),
        r.state_label@ == event.state_label@,
        r.priority == event.priority,
        r.detail@ == event.detail@,
{
    AnnotationRecord {
        idempotency_id: String::from_str(crate::MSG_STORAGE_ID),
        message: String::from_str("Storage addendum for (").concat(raw_line).concat(")"),
        source: String::from_str("kernel"),
        source_doc: event.reference_doc.clone(),
        device: event.device_ref.clone(),
        device_identity: identity.label(),
        state_label: event.state_label.clone(),
        priority: event.priority,
        detail: event.detail.clone(),
    }
}

/// The sorts of device-hotplug notification.
#[derive(Clone, Copy, PartialEq, Eq, Structural, Debug)]
pub enum HotplugKind {
    Added,
    Removed,
    Other,
}

/// The identity label that a device's inline properties yield: the
/// world-wide identifier when present, else the serial number, else empty.
pub open spec fn spec_inline_identity_label(d: DeviceInfo) -> Seq<char> {
    match d.wwid {
        Some(w) => "WWID: "@ + w@,
        None => match d.serial {
            Some(sn) => "SN: "@ + sn@,
            None => Seq::<char>::empty(),
        },
    }
}

/// A device carries no durable identifier in its inline properties.
pub open spec fn identity_absent(d: DeviceInfo) -> bool {
    d.wwid is None && d.serial is None
}

/// The shape of a hotplug annotation record: fixed source and state, the
/// device's node path, and the given message and identity label.
pub open spec fn hotplug_record(
    r: AnnotationRecord,
    d: DeviceInfo,
    msg: Seq<char>,
    identity_label: Seq<char>,
) -> bool {
    &&& record_tagged(r)
    &&& r.message@ == "Annotation: Storage device "@ + msg
    &&& r.source@ == "storage_event_monitor"@
    &&& r.source_doc@.len() == 0
    &&& r.device@ == d.node@
    &&& r.device_identity@ == identity_label
    &&& r.state_label@ == "discovery"@
    &&& r.priority == Priority::Info
    &&& r.detail@.len() == 0
}

/// Builds one hotplug annotation record.
fn compose_hotplug_record(d: &DeviceInfo, msg: &str, identity_label: String) -> (r:
    AnnotationRecord)
    ensures
        hotplug_record(r, *d, msg@, identity_label@),
{
    AnnotationRecord {
        idempotency_id: String::from_str(crate::MSG_STORAGE_ID),
        message: String::from_str("Annotation: Storage device ").concat(msg),
        source: String::from_str("storage_event_monitor"),
        source_doc: String::new(),
        device: d.node.clone(),
        device_identity: identity_label,
        state_label: String::from_str("discovery"),
        priority: Priority::Info,
        detail: String::new(),
    }
}

/// Decides the annotation for one hotplug notification, from the device's
/// inline properties alone. An added device is annotated only when it
/// already carries a durable identifier; a removed device is always
/// annotated, with `Unknown` standing in for a missing identity.
pub fn hotplug_annotation(kind: HotplugKind, dev: &DeviceInfo) -> (r: Option<AnnotationRecord>)
    ensures
        kind == HotplugKind::Other ==> r is None,
        kind == HotplugKind::Added && identity_absent(*dev) ==> r is None,
        kind == HotplugKind::Added && !identity_absent(*dev) ==> (r matches Some(rec)
            && hotplug_record(rec, *dev, "added"@, spec_inline_identity_label(*dev))),
        kind == HotplugKind::Removed ==> (r matches Some(rec) && hotplug_record(
            rec,
            *dev,
            "removed"@,
            if identity_absent(*dev) {
                "Unknown"@
            } else {
                spec_inline_identity_label(*dev)
            },
        )),
{
    let identity = fetch_durable_name(dev);
    match kind {
        HotplugKind::Other => None,
        HotplugKind::Added => {
            if identity.is_present() {
                Some(compose_hotplug_record(dev, "added", identity.label()))
            } else {
                None
            }
        },
        HotplugKind::Removed => {
            let label = if identity.is_present() {
                identity.label()
            } else {
                String::from_str("Unknown")
            };
            Some(compose_hotplug_record(dev, "removed", label))
        },
    }
}

/// An in-memory annotation log of the shape the log backend exposes: a
/// record appended is kept, after whatever was already there.
pub struct AnnotationLog {
    /// The records emitted so far, oldest first.
    pub records: Vec<AnnotationRecord>,
}

impl AnnotationLog {
    /// An empty log.
    pub fn new() -> (l: AnnotationLog)
        ensures
            l.records@.len() == 0,
    {
        AnnotationLog { records: Vec::new() }
    }

    /// Appends one record. Nothing is compared, merged or dropped: each
    /// emission lands as its own entry.
    pub fn emit(&mut self, rec: AnnotationRecord)
        ensures
            final(self).records@ == old(self).records@.push(rec),
    {
        self.records.push(rec);
    }
}

/// Emission is not idempotent by design: emitting the same annotation twice
/// appends two distinct entries, and nothing deduplicates them. Only the
/// read-side check of the idempotency identifier prevents reprocessing.
pub proof fn lemma_emission_not_deduplicated(log: Seq<AnnotationRecord>, rec: AnnotationRecord)
    ensures
        log.push(rec).push(rec).len() == log.len() + 2,
        log.push(rec).push(rec)[log.len() as int] == rec,
        log.push(rec).push(rec)[log.len() as int + 1] == rec,
{
}

} // verus!
