//! Structured storage events produced by the classifier.

use vstd::prelude::*;
use vstd::string::StringExecFns;

verus! {

/// The recognized kernel storage message categories.
#[derive(Clone, Copy, PartialEq, Eq, Structural, Debug)]
pub enum EventKind {
    TargetBlockError,
    UnitAttentionNotice,
    ArrayDiskFailure,
    ArrayRecoveryStart,
    ArrayRecoveryDone,
}

/// Ordered severity of an event: Critical > Alert > Notice > Info.
#[derive(Clone, Copy, PartialEq, Eq, Structural, Debug)]
pub enum Priority {
    Critical,
    Alert,
    Notice,
    Info,
}

/// Numeric rank of a priority; a higher rank is a more severe condition.
pub open spec fn spec_severity_rank(p: Priority) -> u8 {
    match p {
        Priority::Info => 0,
        Priority::Notice => 1,
        Priority::Alert => 2,
        Priority::Critical => 3,
    }
}

impl Priority {
    /// Numeric rank of this priority; Critical > Alert > Notice > Info.
    pub fn severity_rank(&self) -> (r: u8)
        ensures
            r == spec_severity_rank(*self),
    {
        match self {
            Priority::Info => 0,
            Priority::Notice => 1,
            Priority::Alert => 2,
            Priority::Critical => 3,
        }
    }
}

/// The priority that each event kind carries, fixed by the kind.
pub open spec fn kind_priority(k: EventKind) -> Priority {
    match k {
        EventKind::TargetBlockError => Priority::Critical,
        EventKind::UnitAttentionNotice => Priority::Info,
        EventKind::ArrayDiskFailure => Priority::Alert,
        EventKind::ArrayRecoveryStart => Priority::Notice,
        EventKind::ArrayRecoveryDone => Priority::Notice,
    }
}

/// The status token that each event kind carries, fixed by the kind.
pub open spec fn kind_state(k: EventKind) -> Seq<char> {
    match k {
        EventKind::TargetBlockError => "failing"@,
        EventKind::UnitAttentionNotice => "discovery"@,
        EventKind::ArrayDiskFailure => "degraded"@,
        EventKind::ArrayRecoveryStart => "rebuilding"@,
        EventKind::ArrayRecoveryDone => "rebuilt"@,
    }
}

/// The kernel documentation pointer that each event kind carries.
pub open spec fn kind_reference_doc(k: EventKind) -> Seq<char> {
    match k {
        EventKind::TargetBlockError => "see: block/blk-core.c"@,
        EventKind::UnitAttentionNotice => "see: drivers/scsi/scsi_error.c"@,
        EventKind::ArrayDiskFailure => "man 8 mdadm"@,
        EventKind::ArrayRecoveryStart => "man 8 mdadm"@,
        EventKind::ArrayRecoveryDone => "man 8 mdadm"@,
    }
}

/// True for the array-wide recovery kinds, which carry no device reference.
pub open spec fn is_array_wide(k: EventKind) -> bool {
    k == EventKind::ArrayRecoveryStart || k == EventKind::ArrayRecoveryDone
}

/// A structured storage event derived from one raw log line.
pub struct StorageEvent {
    /// Which message category matched.
    pub kind: EventKind,
    /// The device reference exactly as it appeared in the line: a device-node
    /// name, a topology path fragment, or empty for array-wide events.
    pub device_ref: String,
    /// Free-text status token, fixed by the kind.
    pub state_label: String,
    /// Severity, fixed by the kind.
    pub priority: Priority,
    /// Pointer to kernel subsystem documentation, fixed by the kind.
    pub reference_doc: String,
    /// Supplementary message; may be empty.
    pub detail: String,
}

impl StorageEvent {
    /// Well-formedness: the kind determines the priority, status token and
    /// documentation pointer, and only array-wide events lack a device
    /// reference.
    pub open spec fn wf(&self) -> bool {
        &&& self.priority == kind_priority(self.kind)
        &&& self.state_label@ == kind_state(self.kind)
        &&& self.reference_doc@ == kind_reference_doc(self.kind)
        &&& (self.device_ref@.len() == 0 <==> is_array_wide(self.kind))
    }

    /// Builds a well-formed event of the given kind, deriving the fixed
    /// fields from the kind.
    pub fn new(kind: EventKind, device_ref: String, detail: String) -> (e: StorageEvent)
        requires
            device_ref@.len() == 0 <==> is_array_wide(kind),
        ensures
            e.kind == kind,
            e.device_ref == device_ref,
            e.detail == detail,
            e.wf(),
    {
        let state_label = match kind {
            EventKind::TargetBlockError => String::from_str("failing"),
            EventKind::UnitAttentionNotice => String::from_str("discovery"),
            EventKind::ArrayDiskFailure => String::from_str("degraded"),
            EventKind::ArrayRecoveryStart => String::from_str("rebuilding"),
            EventKind::ArrayRecoveryDone => String::from_str("rebuilt"),
        };
        let reference_doc = match kind {
            EventKind::TargetBlockError => String::from_str("see: block/blk-core.c"),
            EventKind::UnitAttentionNotice => String::from_str("see: drivers/scsi/scsi_error.c"),
            _ => String::from_str("man 8 mdadm"),
        };
        let priority = match kind {
            EventKind::TargetBlockError => Priority::Critical,
            EventKind::UnitAttentionNotice => Priority::Info,
            EventKind::ArrayDiskFailure => Priority::Alert,
            EventKind::ArrayRecoveryStart => Priority::Notice,
            EventKind::ArrayRecoveryDone => Priority::Notice,
        };
        StorageEvent { kind, device_ref, state_label, priority, reference_doc, detail }
    }
}

} // verus!
