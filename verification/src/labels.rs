use vstd::prelude::*;

verus! {

/// An opaque interned identifier naming a schedule.
///
/// Labels form an open set: feature modules may introduce new schedules by
/// picking fresh identifiers, without the dispatcher enumerating them. Two
/// labels are the same schedule exactly when their identifiers are equal.
#[derive(Clone, Copy, PartialEq, Eq, Structural, Debug)]
pub struct Label {
    pub id: u64,
}

/// Identifier of the schedule that applies pending state transitions.
pub const STATE_TRANSITION: u64 = 0;
/// Identifier of the schedule that runs before the main process work.
pub const PRE_PROCESS: u64 = 1;
/// Identifier of the main per-frame schedule.
pub const PROCESS: u64 = 2;
/// Identifier of the main fixed-rate schedule.
pub const PHYSICS: u64 = 3;
/// Identifier of the schedule that runs after the main physics work.
pub const POST_PHYSICS: u64 = 4;

impl Label {
    pub fn new(id: u64) -> (l: Label)
        ensures
            l.id == id,
    {
        Label { id }
    }
}

/// The fixed orderings of schedules run on each kind of tick.
///
/// This is configuration set up at startup, not mutated per tick: labels may
/// name schedules that were never registered (such a label runs as a no-op).
pub struct ScheduleOrder {
    pub process: Vec<Label>,
    pub physics: Vec<Label>,
}

impl ScheduleOrder {
    /// The default process-tick ordering: state transitions, then the
    /// pre-process phase, then the main process phase.
    pub open spec fn default_process_order() -> Seq<Label> {
        seq![
            Label { id: STATE_TRANSITION },
            Label { id: PRE_PROCESS },
            Label { id: PROCESS },
        ]
    }

    /// The default physics-tick ordering: the main physics phase, then the
    /// post-physics phase.
    pub open spec fn default_physics_order() -> Seq<Label> {
        seq![Label { id: PHYSICS }, Label { id: POST_PHYSICS }]
    }
}

impl Default for ScheduleOrder {
    fn default() -> (r: ScheduleOrder)
        ensures
            r.process@ == ScheduleOrder::default_process_order(),
            r.physics@ == ScheduleOrder::default_physics_order(),
    {
        let mut process: Vec<Label> = Vec::new();
        process.push(Label { id: STATE_TRANSITION });
        process.push(Label { id: PRE_PROCESS });
        process.push(Label { id: PROCESS });
        let mut physics: Vec<Label> = Vec::new();
        physics.push(Label { id: PHYSICS });
        physics.push(Label { id: POST_PHYSICS });
        proof {
            assert(process@ =~= ScheduleOrder::default_process_order());
            assert(physics@ =~= ScheduleOrder::default_physics_order());
        }
        ScheduleOrder { process, physics }
    }
}

} // verus!
