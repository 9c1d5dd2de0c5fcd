//! The mathematical model of the orchestration core: a ghost world state and
//! the step functions that say exactly what one system run, one schedule run,
//! and one tick do to it. The executable dispatcher is proved to refine these
//! functions, and the core's guarantees are proved about them.

use vstd::prelude::*;

use crate::events::EventBufferView;
use crate::events::EventReader;
use crate::events::EventUpdateSignal;
use crate::events::signal_is_set;
use crate::events::signal_present;
use crate::labels::Label;
use crate::labels::PRE_PROCESS;
use crate::labels::STATE_TRANSITION;
use crate::schedules::ScheduleView;
use crate::schedules::register_view;
use crate::schedules::systems_of;
use crate::states::EnterRecord;
use crate::states::StateSlot;
use crate::states::has_state;
use crate::states::state_index;
use crate::states::state_of;
use crate::systems::ObservationView;
use crate::systems::System;
use crate::systems::TraceEntry;

verus! {

/// Whether a buffer is registered for the event type `t`.
pub open spec fn has_buffer(s: Seq<EventBufferView>, t: u64) -> bool {
    exists|i: int| 0 <= i < s.len() && #[trigger] s[i].event_type == t
}

/// The index of the buffer registered for the event type `t`.
pub open spec fn buffer_index(s: Seq<EventBufferView>, t: u64) -> int {
    choose|i: int| 0 <= i < s.len() && #[trigger] s[i].event_type == t
}

/// The buffer registered for the event type `t`.
pub open spec fn buffer_of(s: Seq<EventBufferView>, t: u64) -> EventBufferView {
    s[buffer_index(s, t)]
}

/// Well-formedness of the buffer pool: one buffer per event type, each one
/// well formed.
pub open spec fn buffers_wf(s: Seq<EventBufferView>) -> bool {
    &&& (forall|i: int, j: int|
        0 <= i < j < s.len() ==> #[trigger] s[i].event_type != #[trigger] s[j].event_type)
    &&& (forall|i: int| 0 <= i < s.len() ==> (#[trigger] s[i]).wf())
}

/// The whole orchestration state, mathematically.
#[verifier::ext_equal]
pub ghost struct EcsView {
    /// The delta written at the start of every process tick, readable by all
    /// systems while the tick runs.
    pub process_delta: u64,
    /// The delta written at the start of every physics tick.
    pub physics_delta: u64,
    /// The fixed order of schedule labels run on a process tick.
    pub process_order: Seq<Label>,
    /// The fixed order of schedule labels run on a physics tick.
    pub physics_order: Seq<Label>,
    /// The schedule registry.
    pub schedules: Seq<ScheduleView>,
    /// The per-event-type buffers.
    pub events: Seq<EventBufferView>,
    /// The shared should-clear signal, if the resource is present.
    pub signal: Option<EventUpdateSignal>,
    /// The registered state slots.
    pub states: Seq<StateSlot>,
    /// The host's quit-requested input condition, as last polled.
    pub quit_pressed: bool,
    /// Whether the core has signalled the host to terminate.
    pub quit_signaled: bool,
    /// Everything observing systems saw, in execution order.
    pub observations: Seq<ObservationView>,
    /// Every firing of a run-once enter system, in execution order.
    pub enters: Seq<EnterRecord>,
    /// Every system dispatch, in execution order.
    pub trace: Seq<TraceEntry>,
}

impl EcsView {
    /// Well-formedness of the world: unique schedule labels, a well-formed
    /// buffer pool, and unique state types.
    pub open spec fn wf(self) -> bool {
        &&& crate::schedules::labels_unique(self.schedules)
        &&& buffers_wf(self.events)
        &&& crate::states::state_types_unique(self.states)
    }
}

/// What one dispatched system does to the world. The dispatch itself is
/// always recorded in the trace; the system's effect may additionally be
/// guarded (by the shared signal, a missing buffer or slot, or the run-once
/// flag), in which case a failed guard leaves the rest of the world unchanged.
pub open spec fn run_system_view(m: EcsView, label: Label, s: System) -> EcsView {
    let t = EcsView { trace: m.trace.push(TraceEntry { label, system: s }), ..m };
    match s {
        System::QuitCheck => {
            if m.quit_pressed {
                EcsView { quit_signaled: true, ..t }
            } else {
                t
            }
        },
        System::QueueEventUpdate => {
            if signal_present(m.signal) {
                EcsView { signal: Option::Some(EventUpdateSignal(true)), ..t }
            } else {
                t
            }
        },
        System::EventUpdate { event_type } => {
            if has_buffer(m.events, event_type) && buffer_of(m.events, event_type).visible().len()
                > 0 {
                let i = buffer_index(m.events, event_type);
                let updated = m.events.update(i, m.events[i].updated());
                if signal_present(m.signal) {
                    let reset = EcsView { signal: Option::Some(EventUpdateSignal(false)), ..t };
                    if signal_is_set(m.signal) {
                        EcsView { events: updated, ..reset }
                    } else {
                        reset
                    }
                } else {
                    EcsView { events: updated, ..t }
                }
            } else {
                t
            }
        },
        System::PushEvent { event_type, payload } => {
            if has_buffer(m.events, event_type) {
                let i = buffer_index(m.events, event_type);
                EcsView { events: m.events.update(i, m.events[i].pushed(payload)), ..t }
            } else {
                t
            }
        },
        System::ConsumeEvents { event_type, reader } => {
            if has_buffer(m.events, event_type) {
                let i = buffer_index(m.events, event_type);
                EcsView {
                    events: m.events.update(i, m.events[i].after_read(reader)),
                    observations: m.observations.push(
                        ObservationView { observer: reader, values: m.events[i].new_events_for(reader) },
                    ),
                    ..t
                }
            } else {
                t
            }
        },
        System::ReadProcessDelta { observer } => {
            EcsView {
                observations: m.observations.push(
                    ObservationView { observer, values: seq![m.process_delta] },
                ),
                ..t
            }
        },
        System::ReadPhysicsDelta { observer } => {
            EcsView {
                observations: m.observations.push(
                    ObservationView { observer, values: seq![m.physics_delta] },
                ),
                ..t
            }
        },
        System::RunEnter { state_type } => {
            if has_state(m.states, state_type) && !state_of(m.states, state_type).entered {
                let i = state_index(m.states, state_type);
                let slot = m.states[i];
                EcsView {
                    states: m.states.update(i, StateSlot { entered: true, ..slot }),
                    enters: m.enters.push(EnterRecord { state_type, value: slot.current }),
                    ..t
                }
            } else {
                t
            }
        },
        System::ApplyTransition { state_type } => {
            if has_state(m.states, state_type) {
                let i = state_index(m.states, state_type);
                let slot = m.states[i];
                match slot.next {
                    Option::Some(v) => {
                        EcsView {
                            states: m.states.update(
                                i,
                                StateSlot { current: v, next: Option::None, ..slot },
                            ),
                            ..t
                        }
                    },
                    Option::None => t,
                }
            } else {
                t
            }
        },
    }
}

/// Running a list of systems in order, all dispatched under one label.
pub open spec fn run_systems_view(m: EcsView, label: Label, ss: Seq<System>) -> EcsView
    decreases ss.len(),
{
    if ss.len() == 0 {
        m
    } else {
        run_systems_view(run_system_view(m, label, ss[0]), label, ss.drop_first())
    }
}

/// Running the schedule named `label`: its systems in registration order; a
/// label with no registered schedule runs as an empty, successful no-op.
pub open spec fn run_schedule_view(m: EcsView, label: Label) -> EcsView {
    run_systems_view(m, label, systems_of(m.schedules, label))
}

/// Running a list of schedules strictly in the given order.
pub open spec fn run_labels_view(m: EcsView, labels: Seq<Label>) -> EcsView
    decreases labels.len(),
{
    if labels.len() == 0 {
        m
    } else {
        run_labels_view(run_schedule_view(m, labels[0]), labels.drop_first())
    }
}

/// One process tick: the process delta is overwritten with the elapsed value,
/// then the process-order schedules run strictly in order.
pub open spec fn process_tick_view(m: EcsView, delta: u64) -> EcsView {
    run_labels_view(EcsView { process_delta: delta, ..m }, m.process_order)
}

/// One physics tick: symmetric, on the physics delta and the physics order.
pub open spec fn physics_tick_view(m: EcsView, delta: u64) -> EcsView {
    run_labels_view(EcsView { physics_delta: delta, ..m }, m.physics_order)
}

/// Registering one system under a schedule label.
pub open spec fn add_systems_view(m: EcsView, label: Label, system: System) -> EcsView {
    EcsView { schedules: register_view(m.schedules, label, system), ..m }
}

/// Registering an event type: creates its buffer and auto-inserts its update
/// system into the pre-process phase. Registering a type a second time is a
/// guarded no-op, so the update system is never duplicated.
pub open spec fn add_event_view(m: EcsView, event_type: u64) -> EcsView {
    if has_buffer(m.events, event_type) {
        m
    } else {
        EcsView {
            events: m.events.push(
                EventBufferView {
                    event_type,
                    front: Seq::<u64>::empty(),
                    back: Seq::<u64>::empty(),
                    readers: Seq::<EventReader>::empty(),
                },
            ),
            schedules: register_view(
                m.schedules,
                Label { id: PRE_PROCESS },
                System::EventUpdate { event_type },
            ),
            ..m
        }
    }
}

/// Registering a state type with its initial value: creates the slot and
/// chains the run-once enter system and the apply-transition system into the
/// state-transition schedule. Registering a type a second time is a guarded
/// no-op, so the transition systems are never duplicated.
pub open spec fn init_state_view(m: EcsView, state_type: u64, initial: u64) -> EcsView {
    if has_state(m.states, state_type) {
        m
    } else {
        EcsView {
            states: m.states.push(
                StateSlot { state_type, current: initial, next: Option::None, entered: false },
            ),
            schedules: register_view(
                register_view(
                    m.schedules,
                    Label { id: STATE_TRANSITION },
                    System::RunEnter { state_type },
                ),
                Label { id: STATE_TRANSITION },
                System::ApplyTransition { state_type },
            ),
            ..m
        }
    }
}

/// Pushing one event from outside any schedule (a host-side producer).
pub open spec fn send_event_view(m: EcsView, event_type: u64, payload: u64) -> EcsView {
    if has_buffer(m.events, event_type) {
        let i = buffer_index(m.events, event_type);
        EcsView { events: m.events.update(i, m.events[i].pushed(payload)), ..m }
    } else {
        m
    }
}

/// Requesting a state transition: records the pending target value of a
/// registered state type; it is applied by the next apply-transition run.
pub open spec fn set_next_state_view(m: EcsView, state_type: u64, target: u64) -> EcsView {
    if has_state(m.states, state_type) {
        let i = state_index(m.states, state_type);
        let slot = m.states[i];
        EcsView { states: m.states.update(i, StateSlot { next: Option::Some(target), ..slot }), ..m }
    } else {
        m
    }
}

/// The trace segment produced by dispatching the systems `ss` under `label`.
pub open spec fn systems_trace(label: Label, ss: Seq<System>) -> Seq<TraceEntry> {
    ss.map_values(|s: System| TraceEntry { label, system: s })
}

/// The trace segment produced by one tick over `labels`, against the registry
/// `scheds`: the labels' systems, concatenated strictly in order.
pub open spec fn tick_trace(scheds: Seq<ScheduleView>, labels: Seq<Label>) -> Seq<TraceEntry>
    decreases labels.len(),
{
    if labels.len() == 0 {
        Seq::<TraceEntry>::empty()
    } else {
        systems_trace(labels[0], systems_of(scheds, labels[0])) + tick_trace(
            scheds,
            labels.drop_first(),
        )
    }
}

/// One host-delivered tick signal, with its elapsed-time value.
pub ghost enum Tick {
    Process { delta: u64 },
    Physics { delta: u64 },
}

/// One tick of either kind.
pub open spec fn tick_view(m: EcsView, tick: Tick) -> EcsView {
    match tick {
        Tick::Process { delta } => process_tick_view(m, delta),
        Tick::Physics { delta } => physics_tick_view(m, delta),
    }
}

/// Any number of host-delivered ticks, in order.
pub open spec fn run_ticks_view(m: EcsView, ticks: Seq<Tick>) -> EcsView
    decreases ticks.len(),
{
    if ticks.len() == 0 {
        m
    } else {
        run_ticks_view(tick_view(m, ticks[0]), ticks.drop_first())
    }
}

/// Replacing one buffer with a well-formed buffer of the same type keeps the
/// pool well formed.
pub proof fn lemma_buffers_wf_update(pre: Seq<EventBufferView>, i: int, b: EventBufferView)
    requires
        buffers_wf(pre),
        0 <= i < pre.len(),
        b.wf(),
        b.event_type == pre[i].event_type,
    ensures
        buffers_wf(pre.update(i, b)),
{
    let post = pre.update(i, b);
    assert forall|k: int, l: int| 0 <= k < l < post.len() implies #[trigger] post[k].event_type
        != #[trigger] post[l].event_type by {
        assert(pre[k].event_type != pre[l].event_type);
    }
    assert forall|k: int| 0 <= k < post.len() implies (#[trigger] post[k]).wf() by {
        if k != i {
            assert(post[k] == pre[k]);
        }
    }
}

/// One system run never touches the configuration (schedule registry and tick
/// orders) or the delta resources; it appends exactly its own dispatch record
/// to the trace, never removes a buffer, a state slot, an observation or an
/// enter record, and never changes which types are registered.
pub proof fn lemma_run_system_frame(m: EcsView, label: Label, s: System)
    ensures
        ({
            let r = run_system_view(m, label, s);
            &&& r.process_order == m.process_order
            &&& r.physics_order == m.physics_order
            &&& r.schedules == m.schedules
            &&& r.process_delta == m.process_delta
            &&& r.physics_delta == m.physics_delta
            &&& r.quit_pressed == m.quit_pressed
            &&& r.trace == m.trace.push(TraceEntry { label, system: s })
            &&& r.events.len() == m.events.len()
            &&& (forall|i: int|
                0 <= i < m.events.len() ==> #[trigger] r.events[i].event_type
                    == m.events[i].event_type)
            &&& r.states.len() == m.states.len()
            &&& (forall|i: int|
                0 <= i < m.states.len() ==> #[trigger] r.states[i].state_type
                    == m.states[i].state_type)
            &&& m.observations.is_prefix_of(r.observations)
            &&& m.enters.is_prefix_of(r.enters)
        }),
{
    let r = run_system_view(m, label, s);
    assert(m.observations.is_prefix_of(r.observations)) by {
        assert(r.observations.take(m.observations.len() as int) =~= m.observations);
    }
    assert(m.enters.is_prefix_of(r.enters)) by {
        assert(r.enters.take(m.enters.len() as int) =~= m.enters);
    }
}

/// One system run preserves well-formedness of the world.
pub proof fn lemma_run_system_wf(m: EcsView, label: Label, s: System)
    requires
        m.wf(),
    ensures
        run_system_view(m, label, s).wf(),
{
    let r = run_system_view(m, label, s);
    lemma_run_system_frame(m, label, s);
    match s {
        System::EventUpdate { event_type } => {
            if has_buffer(m.events, event_type) && buffer_of(m.events, event_type).visible().len()
                > 0 && (!signal_present(m.signal) || signal_is_set(m.signal)) {
                let i = buffer_index(m.events, event_type);
                crate::events::lemma_updated_wf(m.events[i]);
            }
        },
        System::PushEvent { event_type, payload } => {
            if has_buffer(m.events, event_type) {
                let i = buffer_index(m.events, event_type);
                crate::events::lemma_pushed_wf(m.events[i], payload);
            }
        },
        System::ConsumeEvents { event_type, reader } => {
            if has_buffer(m.events, event_type) {
                let i = buffer_index(m.events, event_type);
                crate::events::lemma_after_read_wf(m.events[i], reader);
            }
        },
        _ => {},
    }
}

/// Folding one more system onto the end of a run.
pub proof fn lemma_run_systems_snoc(m: EcsView, label: Label, ss: Seq<System>, s: System)
    ensures
        run_systems_view(m, label, ss.push(s)) == run_system_view(
            run_systems_view(m, label, ss),
            label,
            s,
        ),
    decreases ss.len(),
{
    if ss.len() == 0 {
        let m1 = run_system_view(m, label, s);
        assert(ss.push(s)[0] == s);
        assert(ss.push(s).drop_first() =~= ss);
        assert(run_systems_view(m, label, ss.push(s)) == run_systems_view(m1, label, ss));
        assert(run_systems_view(m1, label, ss) == m1);
        assert(run_systems_view(m, label, ss) == m);
    } else {
        assert(ss.push(s)[0] == ss[0]);
        assert(ss.push(s).drop_first() =~= ss.drop_first().push(s));
        lemma_run_systems_snoc(run_system_view(m, label, ss[0]), label, ss.drop_first(), s);
    }
}

/// Folding one more schedule onto the end of a tick.
pub proof fn lemma_run_labels_snoc(m: EcsView, labels: Seq<Label>, l: Label)
    ensures
        run_labels_view(m, labels.push(l)) == run_schedule_view(run_labels_view(m, labels), l),
    decreases labels.len(),
{
    if labels.len() == 0 {
        let m1 = run_schedule_view(m, l);
        assert(labels.push(l)[0] == l);
        assert(labels.push(l).drop_first() =~= labels);
        assert(run_labels_view(m, labels.push(l)) == run_labels_view(m1, labels));
        assert(run_labels_view(m1, labels) == m1);
        assert(run_labels_view(m, labels) == m);
    } else {
        assert(labels.push(l)[0] == labels[0]);
        assert(labels.push(l).drop_first() =~= labels.drop_first().push(l));
        lemma_run_labels_snoc(run_schedule_view(m, labels[0]), labels.drop_first(), l);
    }
}

/// A whole system list preserves the configuration and the deltas, preserves
/// well-formedness, and appends exactly its own dispatch records, in order.
pub proof fn lemma_run_systems_props(m: EcsView, label: Label, ss: Seq<System>)
    requires
        m.wf(),
    ensures
        ({
            let r = run_systems_view(m, label, ss);
            &&& r.wf()
            &&& r.process_order == m.process_order
            &&& r.physics_order == m.physics_order
            &&& r.schedules == m.schedules
            &&& r.process_delta == m.process_delta
            &&& r.physics_delta == m.physics_delta
            &&& r.trace == m.trace + systems_trace(label, ss)
            &&& r.states.len() == m.states.len()
            &&& (forall|i: int|
                0 <= i < m.states.len() ==> #[trigger] r.states[i].state_type
                    == m.states[i].state_type)
            &&& r.events.len() == m.events.len()
            &&& (forall|i: int|
                0 <= i < m.events.len() ==> #[trigger] r.events[i].event_type
                    == m.events[i].event_type)
            &&& m.observations.is_prefix_of(r.observations)
        }),
    decreases ss.len(),
{
    let r = run_systems_view(m, label, ss);
    if ss.len() == 0 {
        assert(m.trace + systems_trace(label, ss) =~= m.trace);
        assert(m.observations.take(m.observations.len() as int) =~= m.observations);
    } else {
        lemma_run_system_frame(m, label, ss[0]);
        lemma_run_system_wf(m, label, ss[0]);
        let m1 = run_system_view(m, label, ss[0]);
        lemma_run_systems_props(m1, label, ss.drop_first());
        assert(m.trace + systems_trace(label, ss) =~= m1.trace + systems_trace(
            label,
            ss.drop_first(),
        ));
        assert(m.observations.is_prefix_of(r.observations)) by {
            assert(m.observations == m1.observations.take(m.observations.len() as int));
            assert(m1.observations == r.observations.take(m1.observations.len() as int));
            assert(m.observations =~= r.observations.take(m.observations.len() as int));
        }
    }
}

/// A whole tick preserves the configuration and the deltas, preserves
/// well-formedness, and appends exactly the dispatch records of its labels'
/// schedules, concatenated strictly in order.
pub proof fn lemma_run_labels_props(m: EcsView, labels: Seq<Label>)
    requires
        m.wf(),
    ensures
        ({
            let r = run_labels_view(m, labels);
            &&& r.wf()
            &&& r.process_order == m.process_order
            &&& r.physics_order == m.physics_order
            &&& r.schedules == m.schedules
            &&& r.process_delta == m.process_delta
            &&& r.physics_delta == m.physics_delta
            &&& r.trace == m.trace + tick_trace(m.schedules, labels)
            &&& r.states.len() == m.states.len()
            &&& (forall|i: int|
                0 <= i < m.states.len() ==> #[trigger] r.states[i].state_type
                    == m.states[i].state_type)
            &&& r.events.len() == m.events.len()
            &&& (forall|i: int|
                0 <= i < m.events.len() ==> #[trigger] r.events[i].event_type
                    == m.events[i].event_type)
            &&& m.observations.is_prefix_of(r.observations)
        }),
    decreases labels.len(),
{
    let r = run_labels_view(m, labels);
    if labels.len() == 0 {
        assert(m.trace + tick_trace(m.schedules, labels) =~= m.trace);
        assert(m.observations.take(m.observations.len() as int) =~= m.observations);
    } else {
        lemma_run_systems_props(m, labels[0], systems_of(m.schedules, labels[0]));
        let m1 = run_schedule_view(m, labels[0]);
        lemma_run_labels_props(m1, labels.drop_first());
        assert(m.trace + tick_trace(m.schedules, labels) =~= m1.trace + tick_trace(
            m1.schedules,
            labels.drop_first(),
        ));
        assert(m.observations.is_prefix_of(r.observations)) by {
            assert(m.observations == m1.observations.take(m.observations.len() as int));
            assert(m1.observations == r.observations.take(m1.observations.len() as int));
            assert(m.observations =~= r.observations.take(m.observations.len() as int));
        }
    }
}

/// The world as the core sets it up: zero deltas, the default schedule
/// orders, the default schedules (the host-quit check in the process phase,
/// and the clear-request system in the post-physics phase), the shared clear
/// signal present and unset, and no buffers, states or records yet.
pub open spec fn init_view() -> EcsView {
    EcsView {
        process_delta: 0,
        physics_delta: 0,
        process_order: crate::labels::ScheduleOrder::default_process_order(),
        physics_order: crate::labels::ScheduleOrder::default_physics_order(),
        schedules: seq![
            ScheduleView { label: Label { id: crate::labels::PROCESS }, systems: seq![System::QuitCheck] },
            ScheduleView {
                label: Label { id: crate::labels::POST_PHYSICS },
                systems: seq![System::QueueEventUpdate],
            },
        ],
        events: Seq::<EventBufferView>::empty(),
        signal: Option::Some(EventUpdateSignal(false)),
        states: Seq::<StateSlot>::empty(),
        quit_pressed: false,
        quit_signaled: false,
        observations: Seq::<ObservationView>::empty(),
        enters: Seq::<EnterRecord>::empty(),
        trace: Seq::<TraceEntry>::empty(),
    }
}

} // verus!
