//! Storage health correlator: classifies kernel storage log lines into
//! structured events, resolves transient device references to durable
//! hardware identifiers, and composes annotated records for the log backend.

use vstd::prelude::*;

pub mod annotate;
pub mod classify;
pub mod event;
pub mod identity;
pub mod mux;
pub mod textscan;

verus! {

/// The fixed idempotency identifier stamped on every record this system
/// writes, and used to recognize and skip its own prior output on re-read.
pub const MSG_STORAGE_ID: &'static str = "3183267b90074a4595e91daef0e01462";

/// A record read back from the log is ours exactly when its message
/// identifier equals the fixed idempotency identifier.
pub open spec fn is_own_message_id(id: Seq<char>) -> bool {
    id == MSG_STORAGE_ID@
}

} // verus!
