//! The core's guarantees, stated and proved over the model: tick ordering,
//! delta isolation, event lifetime, run-once enter systems, and missing
//! schedule safety.

use vstd::prelude::*;

use crate::events::EventUpdateSignal;
use crate::events::lemma_after_read_wf;
use crate::events::lemma_pushed_wf;
use crate::events::lemma_updated_wf;
use crate::events::signal_is_set;
use crate::events::signal_present;
use crate::labels::Label;
use crate::model::EcsView;
use crate::model::Tick;
use crate::model::add_event_view;
use crate::model::buffer_index;
use crate::model::buffer_of;
use crate::model::has_buffer;
use crate::model::init_state_view;
use crate::model::lemma_run_labels_props;
use crate::model::lemma_run_system_frame;
use crate::model::lemma_run_system_wf;
use crate::model::physics_tick_view;
use crate::model::process_tick_view;
use crate::model::run_system_view;
use crate::model::run_systems_view;
use crate::model::run_labels_view;
use crate::model::run_schedule_view;
use crate::model::run_ticks_view;
use crate::model::systems_trace;
use crate::model::tick_trace;
use crate::model::tick_view;
use crate::schedules::ScheduleView;
use crate::schedules::has_schedule;
use crate::schedules::systems_of;
use crate::states::EnterRecord;
use crate::states::StateSlot;
use crate::states::has_state;
use crate::states::state_index;
use crate::states::state_of;
use crate::states::state_types_unique;
use crate::systems::ObservationView;
use crate::systems::System;

verus! {

/// Every dispatch record of one tick carries a label from that tick's order.
proof fn lemma_tick_trace_labels(scheds: Seq<ScheduleView>, labels: Seq<Label>)
    ensures
        forall|k: int|
            0 <= k < tick_trace(scheds, labels).len() ==> labels.contains(
                #[trigger] tick_trace(scheds, labels)[k].label,
            ),
    decreases labels.len(),
{
    if labels.len() == 0 {
    } else {
        lemma_tick_trace_labels(scheds, labels.drop_first());
        let head = systems_trace(labels[0], systems_of(scheds, labels[0]));
        let tail = tick_trace(scheds, labels.drop_first());
        assert forall|k: int| 0 <= k < tick_trace(scheds, labels).len() implies labels.contains(
            #[trigger] tick_trace(scheds, labels)[k].label,
        ) by {
            if k < head.len() {
                assert(tick_trace(scheds, labels)[k] == head[k]);
                assert(head[k].label == labels[0]);
                assert(labels[0] == labels[0]);
            } else {
                assert(tick_trace(scheds, labels)[k] == tail[k - head.len()]);
                assert(labels.drop_first().contains(tail[k - head.len()].label));
                let w = choose|w: int|
                    0 <= w < labels.drop_first().len() && labels.drop_first()[w] == tail[k
                        - head.len()].label;
                assert(labels[w + 1] == tail[k - head.len()].label);
            }
        }
    }
}

/// Ordering: one process tick appends to the execution trace exactly the
/// systems of the process-order schedules, concatenated strictly in the
/// declared order (under the default order: state transitions, then
/// pre-process, then the main process phase), and every appended record
/// carries a process-order label — no other schedule's systems interleave.
pub proof fn lemma_process_tick_ordering(m: EcsView, delta: u64)
    requires
        m.wf(),
    ensures
        ({
            let r = process_tick_view(m, delta);
            &&& r.trace == m.trace + tick_trace(m.schedules, m.process_order)
            &&& forall|k: int|
                m.trace.len() <= k < r.trace.len() ==> m.process_order.contains(
                    #[trigger] r.trace[k].label,
                )
        }),
{
    let m1 = EcsView { process_delta: delta, ..m };
    assert(m1.wf());
    lemma_run_labels_props(m1, m.process_order);
    lemma_tick_trace_labels(m.schedules, m.process_order);
    let r = process_tick_view(m, delta);
    assert forall|k: int| m.trace.len() <= k < r.trace.len() implies m.process_order.contains(
        #[trigger] r.trace[k].label,
    ) by {
        assert(r.trace[k] == tick_trace(m.schedules, m.process_order)[k - m.trace.len()]);
    }
}

/// The physics-tick counterpart of the ordering law.
pub proof fn lemma_physics_tick_ordering(m: EcsView, delta: u64)
    requires
        m.wf(),
    ensures
        ({
            let r = physics_tick_view(m, delta);
            &&& r.trace == m.trace + tick_trace(m.schedules, m.physics_order)
            &&& forall|k: int|
                m.trace.len() <= k < r.trace.len() ==> m.physics_order.contains(
                    #[trigger] r.trace[k].label,
                )
        }),
{
    let m1 = EcsView { physics_delta: delta, ..m };
    assert(m1.wf());
    lemma_run_labels_props(m1, m.physics_order);
    lemma_tick_trace_labels(m.schedules, m.physics_order);
    let r = physics_tick_view(m, delta);
    assert forall|k: int| m.trace.len() <= k < r.trace.len() implies m.physics_order.contains(
        #[trigger] r.trace[k].label,
    ) by {
        assert(r.trace[k] == tick_trace(m.schedules, m.physics_order)[k - m.trace.len()]);
    }
}

/// Delta isolation: after a process tick with elapsed value `x` followed by a
/// physics tick with elapsed value `y`, the process delta is `x` and the
/// physics delta is `y`, whatever the call history was. Each tick writes only
/// its own delta, and no system ever writes either.
pub proof fn lemma_delta_isolation(m: EcsView, x: u64, y: u64)
    requires
        m.wf(),
    ensures
        ({
            let r1 = process_tick_view(m, x);
            let r2 = physics_tick_view(r1, y);
            &&& r1.process_delta == x
            &&& r1.physics_delta == m.physics_delta
            &&& r2.process_delta == x
            &&& r2.physics_delta == y
        }),
{
    let m1 = EcsView { process_delta: x, ..m };
    assert(m1.wf());
    lemma_run_labels_props(m1, m.process_order);
    let r1 = process_tick_view(m, x);
    let m2 = EcsView { physics_delta: y, ..r1 };
    assert(m2.wf());
    lemma_run_labels_props(m2, r1.physics_order);
}

/// Delta visibility: a process-delta observer dispatched at any point records
/// exactly the process delta in force at that point; combined with the
/// previous law (the delta holds its tick's elapsed value throughout the
/// tick), systems in process schedules see the tick's own delta.
pub proof fn lemma_process_delta_visible(m: EcsView, label: Label, observer: u64)
    ensures
        ({
            let r = run_system_view(m, label, (System::ReadProcessDelta { observer }));
            r.observations == m.observations.push(
                ObservationView { observer, values: seq![m.process_delta] },
            )
        }),
{
}

/// The physics-delta counterpart of the visibility law.
pub proof fn lemma_physics_delta_visible(m: EcsView, label: Label, observer: u64)
    ensures
        ({
            let r = run_system_view(m, label, (System::ReadPhysicsDelta { observer }));
            r.observations == m.observations.push(
                ObservationView { observer, values: seq![m.physics_delta] },
            )
        }),
{
}

/// If a system list contains a process-delta observer, running it records an
/// observation of the delta in force, which no system can change.
proof fn lemma_delta_seen_systems(m: EcsView, label: Label, ss: Seq<System>, o: u64, x: u64)
    requires
        m.wf(),
        m.process_delta == x,
        ss.contains((System::ReadProcessDelta { observer: o })),
    ensures
        run_systems_view(m, label, ss).observations.contains(
            ObservationView { observer: o, values: seq![x] },
        ),
    decreases ss.len(),
{
    let reader = System::ReadProcessDelta { observer: o };
    let target = ObservationView { observer: o, values: seq![x] };
    let s0 = ss[0];
    lemma_run_system_frame(m, label, s0);
    lemma_run_system_wf(m, label, s0);
    let m1 = run_system_view(m, label, s0);
    let r = run_systems_view(m, label, ss);
    crate::model::lemma_run_systems_props(m1, label, ss.drop_first());
    if s0 == reader {
        assert(m1.observations[m1.observations.len() - 1] == target);
        assert(m1.observations.contains(target));
        assert(m1.observations == r.observations.take(m1.observations.len() as int));
        let w = choose|w: int| 0 <= w < m1.observations.len() && m1.observations[w] == target;
        assert(r.observations[w] == target);
    } else {
        let w = choose|w: int| 0 <= w < ss.len() && ss[w] == reader;
        assert(w != 0);
        assert(ss.drop_first()[w - 1] == reader);
        assert(ss.drop_first().contains(reader));
        lemma_delta_seen_systems(m1, label, ss.drop_first(), o, x);
    }
}

proof fn lemma_delta_seen_labels(m: EcsView, labels: Seq<Label>, o: u64, x: u64)
    requires
        m.wf(),
        m.process_delta == x,
        exists|k: int|
            0 <= k < labels.len() && systems_of(m.schedules, #[trigger] labels[k]).contains(
                (System::ReadProcessDelta { observer: o }),
            ),
    ensures
        run_labels_view(m, labels).observations.contains(
            ObservationView { observer: o, values: seq![x] },
        ),
    decreases labels.len(),
{
    let reader = System::ReadProcessDelta { observer: o };
    let target = ObservationView { observer: o, values: seq![x] };
    let k = choose|k: int|
        0 <= k < labels.len() && systems_of(m.schedules, #[trigger] labels[k]).contains(reader);
    let ss0 = systems_of(m.schedules, labels[0]);
    crate::model::lemma_run_systems_props(m, labels[0], ss0);
    let m1 = run_schedule_view(m, labels[0]);
    let r = run_labels_view(m, labels);
    crate::model::lemma_run_labels_props(m1, labels.drop_first());
    if k == 0 {
        lemma_delta_seen_systems(m, labels[0], ss0, o, x);
        assert(m1.observations == r.observations.take(m1.observations.len() as int));
        let w = choose|w: int| 0 <= w < m1.observations.len() && m1.observations[w] == target;
        assert(r.observations[w] == target);
    } else {
        assert(systems_of(m1.schedules, labels.drop_first()[k - 1]).contains(reader));
        lemma_delta_seen_labels(m1, labels.drop_first(), o, x);
    }
}

/// Delta visibility, tick level: when a process-delta observer stands in any
/// schedule of the process order, a process tick with elapsed value `x`
/// records an observation of exactly `x` — systems in process schedules see
/// the tick's own delta, wherever in the order they run.
pub proof fn lemma_process_tick_delta_seen(m: EcsView, x: u64, o: u64)
    requires
        m.wf(),
        exists|k: int|
            0 <= k < m.process_order.len() && systems_of(
                m.schedules,
                #[trigger] m.process_order[k],
            ).contains((System::ReadProcessDelta { observer: o })),
    ensures
        process_tick_view(m, x).observations.contains(
            ObservationView { observer: o, values: seq![x] },
        ),
{
    let md = EcsView { process_delta: x, ..m };
    assert(md.wf());
    lemma_delta_seen_labels(md, m.process_order, o, x);
}

/// The physics counterpart of the observer-list lemma.
proof fn lemma_physics_delta_seen_systems(m: EcsView, label: Label, ss: Seq<System>, o: u64, y: u64)
    requires
        m.wf(),
        m.physics_delta == y,
        ss.contains((System::ReadPhysicsDelta { observer: o })),
    ensures
        run_systems_view(m, label, ss).observations.contains(
            ObservationView { observer: o, values: seq![y] },
        ),
    decreases ss.len(),
{
    let reader = System::ReadPhysicsDelta { observer: o };
    let target = ObservationView { observer: o, values: seq![y] };
    let s0 = ss[0];
    lemma_run_system_frame(m, label, s0);
    lemma_run_system_wf(m, label, s0);
    let m1 = run_system_view(m, label, s0);
    let r = run_systems_view(m, label, ss);
    crate::model::lemma_run_systems_props(m1, label, ss.drop_first());
    if s0 == reader {
        assert(m1.observations[m1.observations.len() - 1] == target);
        assert(m1.observations.contains(target));
        assert(m1.observations == r.observations.take(m1.observations.len() as int));
        let w = choose|w: int| 0 <= w < m1.observations.len() && m1.observations[w] == target;
        assert(r.observations[w] == target);
    } else {
        let w = choose|w: int| 0 <= w < ss.len() && ss[w] == reader;
        assert(w != 0);
        assert(ss.drop_first()[w - 1] == reader);
        assert(ss.drop_first().contains(reader));
        lemma_physics_delta_seen_systems(m1, label, ss.drop_first(), o, y);
    }
}

proof fn lemma_physics_delta_seen_labels(m: EcsView, labels: Seq<Label>, o: u64, y: u64)
    requires
        m.wf(),
        m.physics_delta == y,
        exists|k: int|
            0 <= k < labels.len() && systems_of(m.schedules, #[trigger] labels[k]).contains(
                (System::ReadPhysicsDelta { observer: o }),
            ),
    ensures
        run_labels_view(m, labels).observations.contains(
            ObservationView { observer: o, values: seq![y] },
        ),
    decreases labels.len(),
{
    let reader = System::ReadPhysicsDelta { observer: o };
    let target = ObservationView { observer: o, values: seq![y] };
    let k = choose|k: int|
        0 <= k < labels.len() && systems_of(m.schedules, #[trigger] labels[k]).contains(reader);
    let ss0 = systems_of(m.schedules, labels[0]);
    crate::model::lemma_run_systems_props(m, labels[0], ss0);
    let m1 = run_schedule_view(m, labels[0]);
    let r = run_labels_view(m, labels);
    crate::model::lemma_run_labels_props(m1, labels.drop_first());
    if k == 0 {
        lemma_physics_delta_seen_systems(m, labels[0], ss0, o, y);
        assert(m1.observations == r.observations.take(m1.observations.len() as int));
        let w = choose|w: int| 0 <= w < m1.observations.len() && m1.observations[w] == target;
        assert(r.observations[w] == target);
    } else {
        assert(systems_of(m1.schedules, labels.drop_first()[k - 1]).contains(reader));
        lemma_physics_delta_seen_labels(m1, labels.drop_first(), o, y);
    }
}

/// Delta visibility for physics ticks: when a physics-delta observer stands
/// in any schedule of the physics order, a physics tick with elapsed value
/// `y` records an observation of exactly `y`.
pub proof fn lemma_physics_tick_delta_seen(m: EcsView, y: u64, o: u64)
    requires
        m.wf(),
        exists|k: int|
            0 <= k < m.physics_order.len() && systems_of(
                m.schedules,
                #[trigger] m.physics_order[k],
            ).contains((System::ReadPhysicsDelta { observer: o })),
    ensures
        physics_tick_view(m, y).observations.contains(
            ObservationView { observer: o, values: seq![y] },
        ),
{
    let md = EcsView { physics_delta: y, ..m };
    assert(md.wf());
    lemma_physics_delta_seen_labels(md, m.physics_order, o, y);
}

/// The index of a type's buffer is stable under pointwise type-preserving
/// changes to the pool.
proof fn lemma_buffer_index_stable(
    pre: Seq<crate::events::EventBufferView>,
    post: Seq<crate::events::EventBufferView>,
    t: u64,
)
    requires
        crate::model::buffers_wf(pre),
        pre.len() == post.len(),
        forall|i: int| 0 <= i < pre.len() ==> #[trigger] post[i].event_type == pre[i].event_type,
        has_buffer(pre, t),
    ensures
        has_buffer(post, t),
        buffer_index(post, t) == buffer_index(pre, t),
{
    let i = buffer_index(pre, t);
    assert(0 <= i < pre.len() && pre[i].event_type == t);
    assert(post[i].event_type == t);
    assert(has_buffer(post, t));
    let j = buffer_index(post, t);
    assert(0 <= j < post.len() && post[j].event_type == t);
    assert(pre[j].event_type == t);
    assert(i == j);
}

/// Event persistence: no system other than the buffer's own update system
/// ever removes an event of type `t`. Under any other system the events that
/// were visible stay visible, in order (a producer may append after them).
pub proof fn lemma_event_persistence(m: EcsView, label: Label, s: System, t: u64)
    requires
        m.wf(),
        has_buffer(m.events, t),
        s != (System::EventUpdate { event_type: t }),
    ensures
        ({
            let r = run_system_view(m, label, s);
            &&& has_buffer(r.events, t)
            &&& buffer_of(m.events, t).visible().is_prefix_of(buffer_of(r.events, t).visible())
        }),
{
    let r = run_system_view(m, label, s);
    lemma_run_system_frame(m, label, s);
    lemma_buffer_index_stable(m.events, r.events, t);
    let i = buffer_index(m.events, t);
    let pre = buffer_of(m.events, t);
    let post = buffer_of(r.events, t);
    assert(pre.visible().is_prefix_of(pre.visible())) by {
        assert(pre.visible().take(pre.visible().len() as int) =~= pre.visible());
    }
    match s {
        System::PushEvent { event_type, payload } => {
            if event_type == t {
                lemma_pushed_wf(pre, payload);
            } else if has_buffer(m.events, event_type) {
                assert(buffer_index(m.events, event_type) != i);
                assert(post == pre);
            }
        },
        System::ConsumeEvents { event_type, reader } => {
            if has_buffer(m.events, event_type) {
                if event_type == t {
                    lemma_after_read_wf(pre, reader);
                    assert(post.visible() == pre.visible());
                } else {
                    assert(buffer_index(m.events, event_type) != i);
                    assert(post == pre);
                }
            }
        },
        System::EventUpdate { event_type } => {
            assert(event_type != t);
            if has_buffer(m.events, event_type) {
                assert(buffer_index(m.events, event_type) != i);
                assert(post == pre);
            }
        },
        _ => {
            assert(r.events == m.events);
        },
    }
}

/// An unset signal protects events: while the shared signal is present and
/// unset, the update system clears nothing and leaves the signal unset —
/// events survive every tick until a clear-request system runs.
pub proof fn lemma_update_requires_signal(m: EcsView, label: Label, t: u64)
    requires
        m.wf(),
        signal_present(m.signal),
        !signal_is_set(m.signal),
    ensures
        ({
            let r = run_system_view(m, label, (System::EventUpdate { event_type: t }));
            &&& r.events == m.events
            &&& r.signal == m.signal
        }),
{
    let x = m.signal->Some_0;
    assert(x.0 == false);
    assert(m.signal == Option::Some(EventUpdateSignal(false)));
}

/// Consuming a clear request: when the signal is present and set and the
/// buffer holds events, one run of the type's update system resets the signal
/// and drops exactly the events that had already survived a previous update;
/// events pushed since then stay visible for one more cycle. In particular,
/// if nothing was pushed since the previous update, the buffer is left empty
/// until the next explicit request.
pub proof fn lemma_update_consumes_signal(m: EcsView, label: Label, t: u64)
    requires
        m.wf(),
        signal_present(m.signal),
        signal_is_set(m.signal),
        has_buffer(m.events, t),
        buffer_of(m.events, t).visible().len() > 0,
    ensures
        ({
            let r = run_system_view(m, label, (System::EventUpdate { event_type: t }));
            &&& r.signal == Option::Some(EventUpdateSignal(false))
            &&& has_buffer(r.events, t)
            &&& buffer_of(r.events, t).visible() == buffer_of(m.events, t).back
            &&& (buffer_of(m.events, t).back.len() == 0 ==> buffer_of(r.events, t).visible().len()
                == 0)
        }),
{
    let r = run_system_view(m, label, (System::EventUpdate { event_type: t }));
    lemma_run_system_frame(m, label, (System::EventUpdate { event_type: t }));
    lemma_buffer_index_stable(m.events, r.events, t);
    lemma_updated_wf(buffer_of(m.events, t));
}

/// While the signal is unset, a system that is not a clear request leaves the
/// signal unset and keeps every visible event of type `t` visible.
proof fn lemma_no_request_step(m: EcsView, label: Label, s: System, t: u64)
    requires
        m.wf(),
        m.signal == Option::Some(EventUpdateSignal(false)),
        has_buffer(m.events, t),
        s != System::QueueEventUpdate,
    ensures
        ({
            let r = run_system_view(m, label, s);
            &&& r.signal == m.signal
            &&& has_buffer(r.events, t)
            &&& buffer_of(m.events, t).visible().is_prefix_of(buffer_of(r.events, t).visible())
        }),
{
    let r = run_system_view(m, label, s);
    if s == (System::EventUpdate { event_type: t }) {
        lemma_update_requires_signal(m, label, t);
        assert(buffer_of(m.events, t).visible().is_prefix_of(buffer_of(r.events, t).visible()))
            by {
            assert(buffer_of(r.events, t).visible().take(
                buffer_of(m.events, t).visible().len() as int,
            ) =~= buffer_of(m.events, t).visible());
        }
    } else {
        lemma_event_persistence(m, label, s, t);
    }
}

proof fn lemma_no_request_systems(m: EcsView, label: Label, ss: Seq<System>, t: u64)
    requires
        m.wf(),
        m.signal == Option::Some(EventUpdateSignal(false)),
        has_buffer(m.events, t),
        !ss.contains(System::QueueEventUpdate),
    ensures
        ({
            let r = run_systems_view(m, label, ss);
            &&& r.signal == m.signal
            &&& has_buffer(r.events, t)
            &&& buffer_of(m.events, t).visible().is_prefix_of(buffer_of(r.events, t).visible())
        }),
    decreases ss.len(),
{
    let r = run_systems_view(m, label, ss);
    if ss.len() == 0 {
        assert(buffer_of(m.events, t).visible().take(
            buffer_of(m.events, t).visible().len() as int,
        ) =~= buffer_of(m.events, t).visible());
    } else {
        assert(ss[0] != System::QueueEventUpdate);
        lemma_no_request_step(m, label, ss[0], t);
        lemma_run_system_wf(m, label, ss[0]);
        let m1 = run_system_view(m, label, ss[0]);
        assert(!ss.drop_first().contains(System::QueueEventUpdate)) by {
            if ss.drop_first().contains(System::QueueEventUpdate) {
                let w = choose|w: int|
                    0 <= w < ss.drop_first().len() && ss.drop_first()[w]
                        == System::QueueEventUpdate;
                assert(ss[w + 1] == System::QueueEventUpdate);
            }
        }
        lemma_no_request_systems(m1, label, ss.drop_first(), t);
        assert(buffer_of(m.events, t).visible().is_prefix_of(buffer_of(r.events, t).visible()))
            by {
            let a = buffer_of(m.events, t).visible();
            let b = buffer_of(m1.events, t).visible();
            let c = buffer_of(r.events, t).visible();
            assert(a == b.take(a.len() as int));
            assert(b == c.take(b.len() as int));
            assert(a =~= c.take(a.len() as int));
        }
    }
}

proof fn lemma_no_request_labels(m: EcsView, labels: Seq<Label>, t: u64)
    requires
        m.wf(),
        m.signal == Option::Some(EventUpdateSignal(false)),
        has_buffer(m.events, t),
        forall|k: int|
            0 <= k < labels.len() ==> !systems_of(m.schedules, #[trigger] labels[k]).contains(
                System::QueueEventUpdate,
            ),
    ensures
        ({
            let r = run_labels_view(m, labels);
            &&& r.signal == m.signal
            &&& has_buffer(r.events, t)
            &&& buffer_of(m.events, t).visible().is_prefix_of(buffer_of(r.events, t).visible())
        }),
    decreases labels.len(),
{
    let r = run_labels_view(m, labels);
    if labels.len() == 0 {
        assert(buffer_of(m.events, t).visible().take(
            buffer_of(m.events, t).visible().len() as int,
        ) =~= buffer_of(m.events, t).visible());
    } else {
        let ss0 = systems_of(m.schedules, labels[0]);
        assert(!ss0.contains(System::QueueEventUpdate));
        lemma_no_request_systems(m, labels[0], ss0, t);
        crate::model::lemma_run_systems_props(m, labels[0], ss0);
        let m1 = run_schedule_view(m, labels[0]);
        assert(forall|k: int|
            0 <= k < labels.drop_first().len() ==> !systems_of(
                m1.schedules,
                #[trigger] labels.drop_first()[k],
            ).contains(System::QueueEventUpdate));
        lemma_no_request_labels(m1, labels.drop_first(), t);
        assert(buffer_of(m.events, t).visible().is_prefix_of(buffer_of(r.events, t).visible()))
            by {
            let a = buffer_of(m.events, t).visible();
            let b = buffer_of(m1.events, t).visible();
            let c = buffer_of(r.events, t).visible();
            assert(a == b.take(a.len() as int));
            assert(b == c.take(b.len() as int));
            assert(a =~= c.take(a.len() as int));
        }
    }
}

/// Event survival: while the shared signal is unset and no schedule of a
/// tick's order contains a clear-request system, the tick leaves the signal
/// unset and keeps every visible event of type `t` visible, in order —
/// unconsumed events accumulate rather than vanish, by design.
pub proof fn lemma_events_survive_without_request(m: EcsView, tick: Tick, t: u64)
    requires
        m.wf(),
        m.signal == Option::Some(EventUpdateSignal(false)),
        has_buffer(m.events, t),
        forall|k: int|
            0 <= k < tick_order(m, tick).len() ==> !systems_of(
                m.schedules,
                #[trigger] tick_order(m, tick)[k],
            ).contains(System::QueueEventUpdate),
    ensures
        ({
            let r = tick_view(m, tick);
            &&& r.signal == m.signal
            &&& has_buffer(r.events, t)
            &&& buffer_of(m.events, t).visible().is_prefix_of(buffer_of(r.events, t).visible())
        }),
{
    assert forall|k: int| 0 <= k < tick_order(m, tick).len() implies !systems_of(
        m.schedules,
        #[trigger] tick_order(m, tick)[k],
    ).contains(System::QueueEventUpdate) by {}
    match tick {
        Tick::Process { delta } => {
            let md = EcsView { process_delta: delta, ..m };
            assert(md.wf());
            assert forall|k: int| 0 <= k < m.process_order.len() implies !systems_of(
                md.schedules,
                #[trigger] m.process_order[k],
            ).contains(System::QueueEventUpdate) by {
                assert(tick_order(m, tick)[k] == m.process_order[k]);
            }
            lemma_no_request_labels(md, m.process_order, t);
        },
        Tick::Physics { delta } => {
            let md = EcsView { physics_delta: delta, ..m };
            assert(md.wf());
            assert forall|k: int| 0 <= k < m.physics_order.len() implies !systems_of(
                md.schedules,
                #[trigger] m.physics_order[k],
            ).contains(System::QueueEventUpdate) by {
                assert(tick_order(m, tick)[k] == m.physics_order[k]);
            }
            lemma_no_request_labels(md, m.physics_order, t);
        },
    }
}

/// The order of schedule labels that a tick of the given kind runs.
pub open spec fn tick_order(m: EcsView, tick: Tick) -> Seq<Label> {
    match tick {
        Tick::Process { .. } => m.process_order,
        Tick::Physics { .. } => m.physics_order,
    }
}

/// The number of enter-system firings recorded for the state type `t`.
pub open spec fn enters_for(enters: Seq<EnterRecord>, t: u64) -> nat
    decreases enters.len(),
{
    if enters.len() == 0 {
        0nat
    } else {
        enters_for(enters.drop_last(), t) + if enters.last().state_type == t {
            1nat
        } else {
            0nat
        }
    }
}

proof fn lemma_enters_for_push(enters: Seq<EnterRecord>, x: EnterRecord, t: u64)
    ensures
        enters_for(enters.push(x), t) == enters_for(enters, t) + if x.state_type == t {
            1nat
        } else {
            0nat
        },
{
    assert(enters.push(x).drop_last() =~= enters);
    assert(enters.push(x).last() == x);
}

/// The run-once accounting invariant for the state type `t`: a registered
/// slot has fired its enter system exactly as often as its flag says (once if
/// the flag is set, never otherwise), and an unregistered type has never
/// fired.
pub open spec fn enter_inv(m: EcsView, t: u64) -> bool {
    if has_state(m.states, t) {
        &&& (state_of(m.states, t).entered ==> enters_for(m.enters, t) == 1)
        &&& (!state_of(m.states, t).entered ==> enters_for(m.enters, t) == 0)
    } else {
        enters_for(m.enters, t) == 0
    }
}

/// The index of a type's slot is stable under pointwise type-preserving
/// changes to the slots.
proof fn lemma_state_index_stable(pre: Seq<StateSlot>, post: Seq<StateSlot>, t: u64)
    requires
        state_types_unique(pre),
        pre.len() == post.len(),
        forall|i: int| 0 <= i < pre.len() ==> #[trigger] post[i].state_type == pre[i].state_type,
        has_state(pre, t),
    ensures
        has_state(post, t),
        state_index(post, t) == state_index(pre, t),
{
    let i = state_index(pre, t);
    assert(0 <= i < pre.len() && pre[i].state_type == t);
    assert(post[i].state_type == t);
    assert(has_state(post, t));
    let j = state_index(post, t);
    assert(0 <= j < post.len() && post[j].state_type == t);
    assert(pre[j].state_type == t);
    assert(i == j);
}

/// One system run preserves the run-once invariant, and an already-fired
/// enter flag never resets.
pub proof fn lemma_enter_inv_step(m: EcsView, label: Label, s: System, t: u64)
    requires
        m.wf(),
        enter_inv(m, t),
    ensures
        ({
            let r = run_system_view(m, label, s);
            &&& enter_inv(r, t)
            &&& (has_state(m.states, t) && state_of(m.states, t).entered ==> has_state(r.states, t)
                && state_of(r.states, t).entered)
        }),
{
    let r = run_system_view(m, label, s);
    lemma_run_system_frame(m, label, s);
    if has_state(m.states, t) {
        lemma_state_index_stable(m.states, r.states, t);
    }
    match s {
        System::RunEnter { state_type } => {
            if has_state(m.states, state_type) && !state_of(m.states, state_type).entered {
                let rec = EnterRecord {
                    state_type,
                    value: m.states[state_index(m.states, state_type)].current,
                };
                lemma_enters_for_push(m.enters, rec, t);
                if state_type == t {
                    assert(state_of(r.states, t).entered);
                } else {
                    if has_state(m.states, t) {
                        assert(state_index(m.states, t) != state_index(m.states, state_type));
                        assert(state_of(r.states, t) == state_of(m.states, t));
                    }
                }
            }
        },
        System::ApplyTransition { state_type } => {
            if has_state(m.states, state_type) && state_of(m.states, state_type).next is Some {
                if has_state(m.states, t) {
                    if state_type == t {
                        assert(state_of(r.states, t).entered == state_of(m.states, t).entered);
                    } else {
                        assert(state_index(m.states, t) != state_index(m.states, state_type));
                        assert(state_of(r.states, t) == state_of(m.states, t));
                    }
                }
            }
        },
        _ => {
            assert(r.states == m.states);
            assert(r.enters == m.enters);
        },
    }
}

proof fn lemma_enter_inv_systems(m: EcsView, label: Label, ss: Seq<System>, t: u64)
    requires
        m.wf(),
        enter_inv(m, t),
    ensures
        ({
            let r = run_systems_view(m, label, ss);
            &&& enter_inv(r, t)
            &&& (has_state(m.states, t) && state_of(m.states, t).entered ==> has_state(r.states, t)
                && state_of(r.states, t).entered)
        }),
    decreases ss.len(),
{
    if ss.len() == 0 {
    } else {
        lemma_enter_inv_step(m, label, ss[0], t);
        lemma_run_system_wf(m, label, ss[0]);
        lemma_enter_inv_systems(run_system_view(m, label, ss[0]), label, ss.drop_first(), t);
    }
}

proof fn lemma_enter_inv_labels(m: EcsView, labels: Seq<Label>, t: u64)
    requires
        m.wf(),
        enter_inv(m, t),
    ensures
        ({
            let r = run_labels_view(m, labels);
            &&& enter_inv(r, t)
            &&& (has_state(m.states, t) && state_of(m.states, t).entered ==> has_state(r.states, t)
                && state_of(r.states, t).entered)
        }),
    decreases labels.len(),
{
    if labels.len() == 0 {
    } else {
        lemma_enter_inv_systems(m, labels[0], systems_of(m.schedules, labels[0]), t);
        crate::model::lemma_run_systems_props(m, labels[0], systems_of(m.schedules, labels[0]));
        lemma_enter_inv_labels(run_schedule_view(m, labels[0]), labels.drop_first(), t);
    }
}

/// Run-once enter systems: across any number of ticks of either kind, the
/// enter system of a state type fires at most once — and once it has fired,
/// its flag stays set, so it never fires again. Together with the guarded
/// no-op re-registration (see `lemma_init_state_idempotent`), the enter
/// system runs exactly once even if registration is attempted repeatedly.
pub proof fn lemma_enter_at_most_once(m: EcsView, ticks: Seq<Tick>, t: u64)
    requires
        m.wf(),
        enter_inv(m, t),
    ensures
        ({
            let r = run_ticks_view(m, ticks);
            &&& r.wf()
            &&& enter_inv(r, t)
            &&& enters_for(r.enters, t) <= 1
            &&& (has_state(m.states, t) && state_of(m.states, t).entered ==> has_state(r.states, t)
                && state_of(r.states, t).entered)
        }),
    decreases ticks.len(),
{
    if ticks.len() == 0 {
    } else {
        let m1 = tick_view(m, ticks[0]);
        match ticks[0] {
            Tick::Process { delta } => {
                let md = EcsView { process_delta: delta, ..m };
                assert(md.wf());
                assert(enter_inv(md, t));
                lemma_enter_inv_labels(md, m.process_order, t);
                lemma_run_labels_props(md, m.process_order);
            },
            Tick::Physics { delta } => {
                let md = EcsView { physics_delta: delta, ..m };
                assert(md.wf());
                assert(enter_inv(md, t));
                lemma_enter_inv_labels(md, m.physics_order, t);
                lemma_run_labels_props(md, m.physics_order);
            },
        }
        lemma_enter_at_most_once(m1, ticks.drop_first(), t);
    }
}

/// If a system list contains the enter system of a registered state type,
/// its flag is set once the list has run.
proof fn lemma_run_enter_fires_systems(m: EcsView, label: Label, ss: Seq<System>, t: u64)
    requires
        m.wf(),
        enter_inv(m, t),
        has_state(m.states, t),
        ss.contains((System::RunEnter { state_type: t })),
    ensures
        ({
            let r = run_systems_view(m, label, ss);
            &&& has_state(r.states, t)
            &&& state_of(r.states, t).entered
            &&& enter_inv(r, t)
        }),
    decreases ss.len(),
{
    let enter = System::RunEnter { state_type: t };
    let s0 = ss[0];
    lemma_run_system_wf(m, label, s0);
    lemma_enter_inv_step(m, label, s0, t);
    lemma_run_system_frame(m, label, s0);
    let m1 = run_system_view(m, label, s0);
    lemma_state_index_stable(m.states, m1.states, t);
    if s0 == enter {
        assert(has_state(m1.states, t) && state_of(m1.states, t).entered) by {
            let i = state_index(m.states, t);
            if !state_of(m.states, t).entered {
                assert(m1.states[i].entered);
                assert(state_index(m1.states, t) == i);
            }
        }
        lemma_enter_inv_systems(m1, label, ss.drop_first(), t);
    } else {
        let w = choose|w: int| 0 <= w < ss.len() && ss[w] == enter;
        assert(w != 0);
        assert(ss.drop_first()[w - 1] == enter);
        assert(ss.drop_first().contains(enter));
        lemma_run_enter_fires_systems(m1, label, ss.drop_first(), t);
    }
}

/// If some schedule in the tick's order contains the enter system of a
/// registered state type, its flag is set once the tick has run.
proof fn lemma_run_enter_fires_labels(m: EcsView, labels: Seq<Label>, t: u64)
    requires
        m.wf(),
        enter_inv(m, t),
        has_state(m.states, t),
        exists|k: int|
            0 <= k < labels.len() && systems_of(m.schedules, #[trigger] labels[k]).contains(
                (System::RunEnter { state_type: t }),
            ),
    ensures
        ({
            let r = run_labels_view(m, labels);
            &&& has_state(r.states, t)
            &&& state_of(r.states, t).entered
            &&& enter_inv(r, t)
        }),
    decreases labels.len(),
{
    let enter = System::RunEnter { state_type: t };
    let k = choose|k: int|
        0 <= k < labels.len() && systems_of(m.schedules, #[trigger] labels[k]).contains(enter);
    let ss0 = systems_of(m.schedules, labels[0]);
    crate::model::lemma_run_systems_props(m, labels[0], ss0);
    let m1 = run_schedule_view(m, labels[0]);
    if k == 0 {
        lemma_run_enter_fires_systems(m, labels[0], ss0, t);
        lemma_enter_inv_labels(m1, labels.drop_first(), t);
    } else {
        lemma_enter_inv_systems(m, labels[0], ss0, t);
        lemma_state_index_stable(m.states, m1.states, t);
        assert(systems_of(m1.schedules, labels.drop_first()[k - 1]).contains(enter));
        lemma_run_enter_fires_labels(m1, labels.drop_first(), t);
    }
}

/// Run-once enter systems, existence half: once a state type is registered
/// and its enter system stands in some schedule of the process order (as
/// `init_state` wires it, under the state-transition label), the very first
/// process tick fires it, exactly once — and no number of further ticks of
/// either kind ever fires it again.
pub proof fn lemma_enter_fires_exactly_once(m: EcsView, delta: u64, ticks: Seq<Tick>, t: u64)
    requires
        m.wf(),
        enter_inv(m, t),
        has_state(m.states, t),
        exists|k: int|
            0 <= k < m.process_order.len() && systems_of(
                m.schedules,
                #[trigger] m.process_order[k],
            ).contains((System::RunEnter { state_type: t })),
    ensures
        ({
            let r1 = process_tick_view(m, delta);
            let r = run_ticks_view(r1, ticks);
            &&& enters_for(r1.enters, t) == 1
            &&& enters_for(r.enters, t) == 1
        }),
{
    let md = EcsView { process_delta: delta, ..m };
    assert(md.wf());
    assert(enter_inv(md, t));
    lemma_run_enter_fires_labels(md, m.process_order, t);
    lemma_run_labels_props(md, m.process_order);
    let r1 = process_tick_view(m, delta);
    lemma_enter_at_most_once(r1, ticks, t);
}

/// Applying a transition: a pending target value moves into the current
/// state and the pending slot is cleared; with nothing pending the slot is
/// untouched. The run-once flag is never affected.
pub proof fn lemma_apply_transition(m: EcsView, label: Label, t: u64)
    requires
        m.wf(),
        has_state(m.states, t),
    ensures
        ({
            let r = run_system_view(m, label, (System::ApplyTransition { state_type: t }));
            let pre = state_of(m.states, t);
            let post = state_of(r.states, t);
            &&& has_state(r.states, t)
            &&& (pre.next is Some ==> post.current == pre.next->Some_0 && post.next is None)
            &&& (pre.next is None ==> post == pre)
            &&& post.entered == pre.entered
        }),
{
    let s = System::ApplyTransition { state_type: t };
    let r = run_system_view(m, label, s);
    lemma_run_system_frame(m, label, s);
    lemma_state_index_stable(m.states, r.states, t);
}

/// The whole run-once guarantee, end to end: in a fresh world, registering a
/// state type wires its enter system into the state-transition schedule, the
/// first process tick fires it exactly once, and no number of further ticks
/// of either kind ever fires it again.
pub proof fn lemma_fresh_world_enter_once(t: u64, v: u64, delta: u64, ticks: Seq<Tick>)
    ensures
        ({
            let m = init_state_view(crate::model::init_view(), t, v);
            let r1 = process_tick_view(m, delta);
            let r = run_ticks_view(r1, ticks);
            &&& enters_for(r1.enters, t) == 1
            &&& enters_for(r.enters, t) == 1
        }),
{
    let m0 = crate::model::init_view();
    let st = Label { id: crate::labels::STATE_TRANSITION };
    let enter = System::RunEnter { state_type: t };
    let apply = System::ApplyTransition { state_type: t };
    assert(m0.wf()) by {
        assert(m0.schedules[0].label == Label { id: crate::labels::PROCESS });
        assert(m0.schedules[1].label == Label { id: crate::labels::POST_PHYSICS });
    }
    assert(!has_state(m0.states, t));
    assert(!has_schedule(m0.schedules, st)) by {
        assert(forall|i: int|
            0 <= i < m0.schedules.len() ==> #[trigger] m0.schedules[i].label != st);
    }
    let sch1 = crate::schedules::register_view(m0.schedules, st, enter);
    let sch2 = crate::schedules::register_view(sch1, st, apply);
    crate::schedules::lemma_register_view(m0.schedules, st, enter);
    crate::schedules::lemma_register_view(sch1, st, apply);
    let m = init_state_view(m0, t, v);
    assert(m.schedules == sch2);
    assert(m.wf()) by {
        assert(m.states.len() == 1);
    }
    assert(has_state(m.states, t)) by {
        assert(m.states[0].state_type == t);
    }
    assert(enter_inv(m, t)) by {
        assert(enters_for(m.enters, t) == 0);
        assert(state_of(m.states, t) == m.states[0]);
    }
    assert(systems_of(m0.schedules, st) =~= Seq::<System>::empty());
    assert(systems_of(sch2, st) =~= seq![enter, apply]);
    assert(systems_of(m.schedules, m.process_order[0]).contains(enter)) by {
        assert(m.process_order[0] == st);
        assert(systems_of(m.schedules, st)[0] == enter);
    }
    lemma_enter_fires_exactly_once(m, delta, ticks, t);
}

/// Registering a state type a second time is a guarded no-op: the slot and
/// the transition systems are not duplicated, whatever initial value the
/// second attempt carries.
pub proof fn lemma_init_state_idempotent(m: EcsView, t: u64, v1: u64, v2: u64)
    ensures
        init_state_view(init_state_view(m, t, v1), t, v2) == init_state_view(m, t, v1),
{
    let m1 = init_state_view(m, t, v1);
    if has_state(m.states, t) {
        assert(has_state(m1.states, t));
    } else {
        assert(m1.states[m1.states.len() - 1].state_type == t);
        assert(has_state(m1.states, t));
    }
}

/// Registering an event type a second time is a guarded no-op: the buffer and
/// the auto-inserted update system are not duplicated.
pub proof fn lemma_add_event_idempotent(m: EcsView, t: u64)
    ensures
        add_event_view(add_event_view(m, t), t) == add_event_view(m, t),
{
    let m1 = add_event_view(m, t);
    if has_buffer(m.events, t) {
        assert(has_buffer(m1.events, t));
    } else {
        assert(m1.events[m1.events.len() - 1].event_type == t);
        assert(has_buffer(m1.events, t));
    }
}

/// Missing schedule safety: running a label with no registered schedule
/// changes nothing at all — no error, no resource mutation, not even a trace
/// record; the rest of the tick proceeds as if the label were absent.
pub proof fn lemma_missing_schedule(m: EcsView, label: Label)
    requires
        !has_schedule(m.schedules, label),
    ensures
        run_schedule_view(m, label) == m,
{
    assert(systems_of(m.schedules, label) =~= Seq::<System>::empty());
}

} // verus!
