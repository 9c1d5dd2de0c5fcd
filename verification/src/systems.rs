use vstd::prelude::*;

use crate::labels::Label;

verus! {

/// A unit of work that a schedule can run.
///
/// Systems are drawn from the orchestration core's vocabulary: host-effect
/// checks, event production and consumption, the event-buffer coordination
/// pair, delta observers, and the two state-transition systems. Each carries
/// the plain identifiers it acts on, so registering the same system twice
/// runs it twice.
#[derive(Clone, Copy, PartialEq, Eq, Structural, Debug)]
pub enum System {
    /// Checks the host's quit-requested input condition and, if it is set,
    /// signals the host to terminate.
    QuitCheck,
    /// Requests that event buffers be cleared: sets the shared clear signal
    /// when the signal resource is present, and does nothing otherwise.
    QueueEventUpdate,
    /// The auto-inserted per-event-type update system: consumes the shared
    /// clear signal and advances the buffer of `event_type` accordingly.
    EventUpdate { event_type: u64 },
    /// A producer: appends `payload` to the buffer of `event_type`.
    PushEvent { event_type: u64, payload: u64 },
    /// A consumer: reads the events of `event_type` that the reader named
    /// `reader` has not yet seen, and records them as an observation.
    ConsumeEvents { event_type: u64, reader: u64 },
    /// Records the process-tick delta currently visible to systems.
    ReadProcessDelta { observer: u64 },
    /// Records the physics-tick delta currently visible to systems.
    ReadPhysicsDelta { observer: u64 },
    /// The run-once enter system for a state type: performs first-time setup
    /// on the very first transition evaluation, and never again.
    RunEnter { state_type: u64 },
    /// Applies the pending transition of a state type, if one is set.
    ApplyTransition { state_type: u64 },
}

/// One record of the dispatcher's execution order: which system ran, and
/// under which schedule label it was dispatched.
#[derive(Clone, Copy, PartialEq, Eq, Structural, Debug)]
pub struct TraceEntry {
    pub label: Label,
    pub system: System,
}

/// What an observing system saw when it ran: the events a consumer read, or
/// the delta value a delta observer found.
#[derive(PartialEq, Eq, Debug)]
pub struct Observation {
    pub observer: u64,
    pub values: Vec<u64>,
}

/// The mathematical model of one observation.
#[verifier::ext_equal]
pub ghost struct ObservationView {
    pub observer: u64,
    pub values: Seq<u64>,
}

impl View for Observation {
    type V = ObservationView;

    open spec fn view(&self) -> ObservationView {
        ObservationView { observer: self.observer, values: self.values@ }
    }
}

} // verus!
