//! The readiness multiplexer's decisions: which conditions on a readiness
//! source are fatal, which sources a dispatch cycle drains, and in what
//! order. The blocking wait itself is platform work and stays outside the
//! library; whatever reports readiness hands these functions plain condition
//! flags and performs the plan they return.

use vstd::prelude::*;

verus! {

/// The condition flags one readiness source reports from a wait.
#[derive(Clone, Copy, PartialEq, Eq, Structural, Debug)]
pub struct Readiness {
    /// The source has items ready to read.
    pub readable: bool,
    /// The source reported an error condition.
    pub error: bool,
    /// The source reported a hangup.
    pub hangup: bool,
    /// The source's handle is invalid.
    pub invalid: bool,
}

impl Readiness {
    /// A source reporting an error, hangup or invalid condition is lost for
    /// good: the backend handle cannot be reacquired.
    pub open spec fn spec_is_fatal(&self) -> bool {
        self.error || self.hangup || self.invalid
    }

    /// Whether the source's condition is unrecoverable.
    pub fn is_fatal(&self) -> (r: bool)
        ensures
            r == self.spec_is_fatal(),
    {
        self.error || self.hangup || self.invalid
    }
}

/// The two independent readiness sources the loop waits on.
#[derive(Clone, Copy, PartialEq, Eq, Structural, Debug)]
pub enum SourceId {
    /// The log-read handle.
    Log,
    /// The device-event handle.
    Device,
}

impl SourceId {
    /// The distinct non-zero status the process exits with when this source
    /// reports an unrecoverable condition.
    pub fn exit_code(&self) -> (c: i32)
        ensures
            *self == SourceId::Log ==> c == 2,
            *self == SourceId::Device ==> c == 3,
            c != 0,
    {
        match self {
            SourceId::Log => 2,
            SourceId::Device => 3,
        }
    }
}

/// What one dispatch cycle must do: terminate on a lost source, or drain
/// whichever sources are readable.
#[derive(Clone, Copy, PartialEq, Eq, Structural, Debug)]
pub enum DispatchPlan {
    /// The named source is lost; exit with its code.
    Fatal(SourceId),
    /// Drain every item currently pending on each flagged source.
    Drain { log: bool, device: bool },
}

/// The sources a drain plan visits, in order: log events before device
/// events when both are ready.
pub open spec fn spec_drain_order(log: bool, device: bool) -> Seq<SourceId> {
    if log && device {
        seq![SourceId::Log, SourceId::Device]
    } else if log {
        seq![SourceId::Log]
    } else if device {
        seq![SourceId::Device]
    } else {
        Seq::<SourceId>::empty()
    }
}

impl DispatchPlan {
    /// The sources to drain, in their fixed order; a fatal plan drains
    /// nothing.
    pub fn drain_order(&self) -> (v: Vec<SourceId>)
        ensures
            *self matches DispatchPlan::Drain { log, device } ==> v@ == spec_drain_order(
                log,
                device,
            ),
            *self matches DispatchPlan::Fatal(_) ==> v@.len() == 0,
    {
        let mut v: Vec<SourceId> = Vec::new();
        match self {
            DispatchPlan::Fatal(_) => {},
            DispatchPlan::Drain { log, device } => {
                if *log {
                    v.push(SourceId::Log);
                }
                if *device {
                    v.push(SourceId::Device);
                }
                proof {
                    if *log && *device {
                        assert(v@ =~= seq![SourceId::Log, SourceId::Device]);
                    } else if *log {
                        assert(v@ =~= seq![SourceId::Log]);
                    } else if *device {
                        assert(v@ =~= seq![SourceId::Device]);
                    } else {
                        assert(v@ =~= Seq::<SourceId>::empty());
                    }
                }
            },
        }
        v
    }
}

/// Decides one dispatch cycle from the two sources' conditions. A lost
/// log source ends the process first, then a lost device source; otherwise
/// each readable source is drained, log before device.
pub fn plan_dispatch(log_src: Readiness, device_src: Readiness) -> (p: DispatchPlan)
    ensures
        log_src.spec_is_fatal() ==> p == DispatchPlan::Fatal(SourceId::Log),
        !log_src.spec_is_fatal() && device_src.spec_is_fatal() ==> p == DispatchPlan::Fatal(
            SourceId::Device,
        ),
        !log_src.spec_is_fatal() && !device_src.spec_is_fatal() ==> p == (DispatchPlan::Drain {
            log: log_src.readable,
            device: device_src.readable,
        }),
{
    if log_src.is_fatal() {
        DispatchPlan::Fatal(SourceId::Log)
    } else if device_src.is_fatal() {
        DispatchPlan::Fatal(SourceId::Device)
    } else {
        DispatchPlan::Drain { log: log_src.readable, device: device_src.readable }
    }
}

} // verus!
