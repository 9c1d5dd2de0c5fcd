//! The executable orchestration core: the world, registration, and the tick
//! dispatcher. Every function is proved to refine the step functions of
//! `model`, so everything the model guarantees holds of this code.

use vstd::prelude::*;

use crate::events::EventBuffer;
use crate::events::EventBufferView;
use crate::events::EventUpdateSignal;
use crate::events::event_queue_update_system;
use crate::events::event_update_system;
use crate::labels::Label;
use crate::labels::PRE_PROCESS;
use crate::labels::POST_PHYSICS;
use crate::labels::PROCESS;
use crate::labels::STATE_TRANSITION;
use crate::labels::ScheduleOrder;
use crate::model::EcsView;
use crate::model::add_event_view;
use crate::model::add_systems_view;
use crate::model::buffer_index;
use crate::model::buffers_wf;
use crate::model::has_buffer;
use crate::model::init_state_view;
use crate::model::init_view;
use crate::model::lemma_run_labels_props;
use crate::model::lemma_run_labels_snoc;
use crate::model::lemma_run_systems_props;
use crate::model::lemma_run_systems_snoc;
use crate::model::physics_tick_view;
use crate::model::process_tick_view;
use crate::model::run_labels_view;
use crate::model::run_schedule_view;
use crate::model::run_system_view;
use crate::model::run_systems_view;
use crate::model::send_event_view;
use crate::model::set_next_state_view;
use crate::schedules::Schedules;
use crate::schedules::labels_unique;
use crate::schedules::systems_of;
use crate::states::StateSlot;
use crate::states::EnterRecord;
use crate::states::has_state;
use crate::states::state_index;
use crate::systems::Observation;
use crate::systems::ObservationView;
use crate::systems::System;
use crate::systems::TraceEntry;

verus! {

/// The mathematical contents of a buffer pool.
pub open spec fn buffers_view(events: Seq<EventBuffer>) -> Seq<EventBufferView> {
    events.map_values(|b: EventBuffer| b@)
}

/// The mathematical contents of an observation log.
pub open spec fn observations_view(obs: Seq<Observation>) -> Seq<ObservationView> {
    obs.map_values(|o: Observation| o@)
}

/// The orchestration world: delta resources, the tick orders, the schedule
/// registry, the event-buffer coordinator's buffers and shared signal, the
/// state slots, the host-facing quit flags, and the execution records
/// (observations, enter firings, and the dispatch trace).
pub struct Ecs {
    pub process_delta: u64,
    pub physics_delta: u64,
    pub schedule_order: ScheduleOrder,
    pub schedules: Schedules,
    pub events: Vec<EventBuffer>,
    pub signal: Option<EventUpdateSignal>,
    pub states: Vec<StateSlot>,
    pub quit_pressed: bool,
    pub quit_signaled: bool,
    pub observations: Vec<Observation>,
    pub enters: Vec<EnterRecord>,
    pub trace: Vec<TraceEntry>,
}

impl View for Ecs {
    type V = EcsView;

    open spec fn view(&self) -> EcsView {
        EcsView {
            process_delta: self.process_delta,
            physics_delta: self.physics_delta,
            process_order: self.schedule_order.process@,
            physics_order: self.schedule_order.physics@,
            schedules: self.schedules@,
            events: buffers_view(self.events@),
            signal: self.signal,
            states: self.states@,
            quit_pressed: self.quit_pressed,
            quit_signaled: self.quit_signaled,
            observations: observations_view(self.observations@),
            enters: self.enters@,
            trace: self.trace@,
        }
    }
}

/// Finds the position of the buffer registered for `event_type`.
fn find_buffer(events: &Vec<EventBuffer>, event_type: u64) -> (r: Option<usize>)
    requires
        buffers_wf(buffers_view(events@)),
    ensures
        match r {
            Option::Some(i) => i < events@.len() && has_buffer(buffers_view(events@), event_type)
                && i as int == buffer_index(buffers_view(events@), event_type),
            Option::None => !has_buffer(buffers_view(events@), event_type),
        },
{
    let ghost v = buffers_view(events@);
    let mut i: usize = 0;
    while i < events.len() && events[i].event_type != event_type
        invariant
            i <= events.len(),
            v == buffers_view(events@),
            forall|j: int| 0 <= j < i ==> #[trigger] v[j].event_type != event_type,
        decreases events.len() - i,
    {
        proof {
            assert(v[i as int] == events@[i as int]@);
        }
        i += 1;
    }
    if i < events.len() {
        proof {
            assert(v[i as int] == events@[i as int]@);
            assert(v[i as int].event_type == event_type);
            assert(has_buffer(v, event_type));
            let c = buffer_index(v, event_type);
            assert(0 <= c < v.len() && v[c].event_type == event_type);
            assert(c == i as int);
        }
        Some(i)
    } else {
        proof {
            assert(forall|j: int| 0 <= j < v.len() ==> #[trigger] v[j].event_type != event_type);
        }
        None
    }
}

/// Finds the position of the slot registered for `state_type`.
fn find_state(states: &Vec<StateSlot>, state_type: u64) -> (r: Option<usize>)
    requires
        crate::states::state_types_unique(states@),
    ensures
        match r {
            Option::Some(i) => i < states@.len() && has_state(states@, state_type) && i as int
                == state_index(states@, state_type),
            Option::None => !has_state(states@, state_type),
        },
{
    let mut i: usize = 0;
    while i < states.len() && states[i].state_type != state_type
        invariant
            i <= states.len(),
            forall|j: int| 0 <= j < i ==> #[trigger] states@[j].state_type != state_type,
        decreases states.len() - i,
    {
        i += 1;
    }
    if i < states.len() {
        proof {
            assert(has_state(states@, state_type));
            let c = state_index(states@, state_type);
            assert(0 <= c < states@.len() && states@[c].state_type == state_type);
            assert(c == i as int);
        }
        Some(i)
    } else {
        proof {
            assert(forall|j: int|
                0 <= j < states@.len() ==> #[trigger] states@[j].state_type != state_type);
        }
        None
    }
}

impl Ecs {
    /// The default schedule registry: the host-quit check in the main process
    /// phase, and the clear-request system in the post-physics phase, so that
    /// buffered events are released for clearing only after the physics
    /// systems have had their turn.
    pub fn schedules() -> (s: Schedules)
        ensures
            s@ == init_view().schedules,
            labels_unique(s@),
    {
        let mut s = Schedules::new();
        s.register(Label { id: PROCESS }, System::QuitCheck);
        s.register(Label { id: POST_PHYSICS }, System::QueueEventUpdate);
        proof {
            assert(s@ =~~= init_view().schedules);
        }
        s
    }

    /// A fresh world: zero deltas, the default tick orders and schedules, the
    /// shared clear signal present and unset, and nothing registered yet.
    pub fn new() -> (e: Ecs)
        ensures
            e@ == init_view(),
            e@.wf(),
    {
        let e = Ecs {
            process_delta: 0,
            physics_delta: 0,
            schedule_order: Default::default(),
            schedules: Ecs::schedules(),
            events: Vec::new(),
            signal: Some(EventUpdateSignal(false)),
            states: Vec::new(),
            quit_pressed: false,
            quit_signaled: false,
            observations: Vec::new(),
            enters: Vec::new(),
            trace: Vec::new(),
        };
        proof {
            assert(buffers_view(e.events@) =~= Seq::<EventBufferView>::empty());
            assert(observations_view(e.observations@) =~= Seq::<ObservationView>::empty());
            assert(e@ =~= init_view());
        }
        e
    }

    /// Registers one system under a schedule label, creating the schedule on
    /// first use and appending otherwise.
    pub fn add_systems(&mut self, label: Label, system: System)
        requires
            old(self)@.wf(),
        ensures
            final(self)@ == add_systems_view(old(self)@, label, system),
            final(self)@.wf(),
    {
        self.schedules.register(label, system);
        proof {
            assert(self@ =~= add_systems_view(old(self)@, label, system));
        }
    }

    /// Registers an event type: creates its buffer and auto-inserts its
    /// update system into the pre-process phase. A second registration of the
    /// same type is a guarded no-op.
    pub fn add_event(&mut self, event_type: u64)
        requires
            old(self)@.wf(),
        ensures
            final(self)@ == add_event_view(old(self)@, event_type),
            final(self)@.wf(),
    {
        let found = find_buffer(&self.events, event_type);
        match found {
            Some(_) => {
                proof {
                    assert(self@ =~= add_event_view(old(self)@, event_type));
                }
            },
            None => {
                let buffer = EventBuffer::new(event_type);
                self.events.push(buffer);
                self.schedules.register(
                    Label { id: PRE_PROCESS },
                    System::EventUpdate { event_type },
                );
                proof {
                    assert(buffers_view(self.events@) =~= buffers_view(old(self).events@).push(
                        self.events@[self.events@.len() - 1]@,
                    ));
                    assert(self@ =~= add_event_view(old(self)@, event_type));
                    let post = self@.events;
                    assert forall|k: int, l: int|
                        0 <= k < l < post.len() implies #[trigger] post[k].event_type
                        != #[trigger] post[l].event_type by {
                        if l < post.len() - 1 {
                        } else {
                            assert(post[l].event_type == event_type);
                            assert(post[k] == old(self)@.events[k]);
                        }
                    }
                    assert forall|k: int| 0 <= k < post.len() implies (#[trigger] post[k]).wf() by {
                        if k < post.len() - 1 {
                            assert(post[k] == old(self)@.events[k]);
                        }
                    }
                }
            },
        }
    }

    /// Registers a state type with its initial value: creates the slot and
    /// chains the run-once enter system and the apply-transition system into
    /// the state-transition schedule. A second registration of the same type
    /// is a guarded no-op, so the transition systems are never duplicated.
    pub fn init_state(&mut self, state_type: u64, initial: u64)
        requires
            old(self)@.wf(),
        ensures
            final(self)@ == init_state_view(old(self)@, state_type, initial),
            final(self)@.wf(),
    {
        let found = find_state(&self.states, state_type);
        match found {
            Some(_) => {
                proof {
                    assert(self@ =~= init_state_view(old(self)@, state_type, initial));
                }
            },
            None => {
                self.states.push(
                    StateSlot { state_type, current: initial, next: None, entered: false },
                );
                self.schedules.register(
                    Label { id: STATE_TRANSITION },
                    System::RunEnter { state_type },
                );
                self.schedules.register(
                    Label { id: STATE_TRANSITION },
                    System::ApplyTransition { state_type },
                );
                proof {
                    assert(self@ =~= init_state_view(old(self)@, state_type, initial));
                    let post = self@.states;
                    assert forall|k: int, l: int|
                        0 <= k < l < post.len() implies #[trigger] post[k].state_type
                        != #[trigger] post[l].state_type by {
                        if l < post.len() - 1 {
                        } else {
                            assert(post[l].state_type == state_type);
                            assert(post[k] == old(self)@.states[k]);
                        }
                    }
                }
            },
        }
    }

    /// Pushes one event from outside any schedule (a host-side producer). An
    /// unregistered event type is ignored.
    pub fn send_event(&mut self, event_type: u64, payload: u64)
        requires
            old(self)@.wf(),
        ensures
            final(self)@ == send_event_view(old(self)@, event_type, payload),
            final(self)@.wf(),
    {
        let found = find_buffer(&self.events, event_type);
        match found {
            Some(i) => {
                self.events[i].push(payload);
                proof {
                    assert(buffers_view(self.events@) =~= buffers_view(old(self).events@).update(
                        i as int,
                        self.events@[i as int]@,
                    ));
                    assert(self@ =~= send_event_view(old(self)@, event_type, payload));
                    crate::model::lemma_buffers_wf_update(
                        old(self)@.events,
                        i as int,
                        self@.events[i as int],
                    );
                }
            },
            None => {
                proof {
                    assert(self@ =~= send_event_view(old(self)@, event_type, payload));
                }
            },
        }
    }

    /// Requests a transition: records the pending target value of a
    /// registered state type. An unregistered state type is ignored.
    pub fn set_next_state(&mut self, state_type: u64, target: u64)
        requires
            old(self)@.wf(),
        ensures
            final(self)@ == set_next_state_view(old(self)@, state_type, target),
            final(self)@.wf(),
    {
        let found = find_state(&self.states, state_type);
        match found {
            Some(i) => {
                let slot = self.states[i];
                self.states[i] = StateSlot { next: Some(target), ..slot };
                proof {
                    assert(self@ =~= set_next_state_view(old(self)@, state_type, target));
                    assert forall|k: int|
                        0 <= k < self@.states.len() implies #[trigger] self@.states[k].state_type
                        == old(self)@.states[k].state_type by {}
                }
            },
            None => {
                proof {
                    assert(self@ =~= set_next_state_view(old(self)@, state_type, target));
                }
            },
        }
    }

    /// Records the host's quit-requested input condition, polled by the host
    /// before it delivers a tick.
    pub fn set_quit_pressed(&mut self, pressed: bool)
        ensures
            final(self)@ == (EcsView { quit_pressed: pressed, ..old(self)@ }),
    {
        self.quit_pressed = pressed;
        proof {
            assert(self@ =~= (EcsView { quit_pressed: pressed, ..old(self)@ }));
        }
    }

    /// Whether the core has signalled the host to terminate.
    pub fn quit_signaled(&self) -> (b: bool)
        ensures
            b == self@.quit_signaled,
    {
        self.quit_signaled
    }

    /// Dispatches one system under `label` and applies its guarded effect.
    fn run_system(&mut self, label: Label, s: System)
        requires
            old(self)@.wf(),
        ensures
            final(self)@ == run_system_view(old(self)@, label, s),
            final(self)@.wf(),
    {
        self.trace.push(TraceEntry { label, system: s });
        match s {
            System::QuitCheck => {
                if self.quit_pressed {
                    self.quit_signaled = true;
                }
                proof {
                    assert(self@ =~= run_system_view(old(self)@, label, s));
                }
            },
            System::QueueEventUpdate => {
                event_queue_update_system(&mut self.signal);
                proof {
                    assert(self@ =~= run_system_view(old(self)@, label, s));
                }
            },
            System::EventUpdate { event_type } => {
                let found = find_buffer(&self.events, event_type);
                match found {
                    Some(i) => {
                        if self.events[i].front.len() > 0 || self.events[i].back.len() > 0 {
                            event_update_system(&mut self.signal, &mut self.events[i]);
                            proof {
                                assert(buffers_view(self.events@) =~= buffers_view(
                                    old(self).events@,
                                ).update(i as int, self.events@[i as int]@));
                                assert(old(self)@.events[i as int].visible().len() > 0);
                                assert(self@ =~= run_system_view(old(self)@, label, s));
                                crate::model::lemma_buffers_wf_update(
                                    old(self)@.events,
                                    i as int,
                                    self@.events[i as int],
                                );
                            }
                        } else {
                            proof {
                                assert(old(self)@.events[i as int].visible().len() == 0);
                                assert(self@ =~= run_system_view(old(self)@, label, s));
                            }
                        }
                    },
                    None => {
                        proof {
                            assert(self@ =~= run_system_view(old(self)@, label, s));
                        }
                    },
                }
            },
            System::PushEvent { event_type, payload } => {
                let found = find_buffer(&self.events, event_type);
                match found {
                    Some(i) => {
                        self.events[i].push(payload);
                        proof {
                            assert(buffers_view(self.events@) =~= buffers_view(
                                old(self).events@,
                            ).update(i as int, self.events@[i as int]@));
                            assert(self@ =~= run_system_view(old(self)@, label, s));
                            crate::model::lemma_buffers_wf_update(
                                old(self)@.events,
                                i as int,
                                self@.events[i as int],
                            );
                        }
                    },
                    None => {
                        proof {
                            assert(self@ =~= run_system_view(old(self)@, label, s));
                        }
                    },
                }
            },
            System::ConsumeEvents { event_type, reader } => {
                let found = find_buffer(&self.events, event_type);
                match found {
                    Some(i) => {
                        let values = self.events[i].read_new(reader);
                        self.observations.push(Observation { observer: reader, values });
                        proof {
                            assert(buffers_view(self.events@) =~= buffers_view(
                                old(self).events@,
                            ).update(i as int, self.events@[i as int]@));
                            assert(observations_view(self.observations@) =~= observations_view(
                                old(self).observations@,
                            ).push(self.observations@[self.observations@.len() - 1]@));
                            assert(self@ =~= run_system_view(old(self)@, label, s));
                            crate::model::lemma_buffers_wf_update(
                                old(self)@.events,
                                i as int,
                                self@.events[i as int],
                            );
                        }
                    },
                    None => {
                        proof {
                            assert(self@ =~= run_system_view(old(self)@, label, s));
                        }
                    },
                }
            },
            System::ReadProcessDelta { observer } => {
                let mut values: Vec<u64> = Vec::new();
                values.push(self.process_delta);
                self.observations.push(Observation { observer, values });
                proof {
                    assert(observations_view(self.observations@) =~= observations_view(
                        old(self).observations@,
                    ).push(self.observations@[self.observations@.len() - 1]@));
                    assert(self.observations@[self.observations@.len() - 1]@.values =~= seq![
                        old(self)@.process_delta,
                    ]);
                    assert(self@ =~= run_system_view(old(self)@, label, s));
                }
            },
            System::ReadPhysicsDelta { observer } => {
                let mut values: Vec<u64> = Vec::new();
                values.push(self.physics_delta);
                self.observations.push(Observation { observer, values });
                proof {
                    assert(observations_view(self.observations@) =~= observations_view(
                        old(self).observations@,
                    ).push(self.observations@[self.observations@.len() - 1]@));
                    assert(self.observations@[self.observations@.len() - 1]@.values =~= seq![
                        old(self)@.physics_delta,
                    ]);
                    assert(self@ =~= run_system_view(old(self)@, label, s));
                }
            },
            System::RunEnter { state_type } => {
                let found = find_state(&self.states, state_type);
                match found {
                    Some(i) => {
                        let slot = self.states[i];
                        if !slot.entered {
                            self.states[i] = StateSlot { entered: true, ..slot };
                            self.enters.push(EnterRecord { state_type, value: slot.current });
                        }
                        proof {
                            assert(self@ =~= run_system_view(old(self)@, label, s));
                            assert forall|k: int|
                                0 <= k < self@.states.len() implies #[trigger] self@.states[k].state_type
                                == old(self)@.states[k].state_type by {}
                        }
                    },
                    None => {
                        proof {
                            assert(self@ =~= run_system_view(old(self)@, label, s));
                        }
                    },
                }
            },
            System::ApplyTransition { state_type } => {
                let found = find_state(&self.states, state_type);
                match found {
                    Some(i) => {
                        let slot = self.states[i];
                        match slot.next {
                            Some(v) => {
                                self.states[i] = StateSlot {
                                    current: v,
                                    next: None,
                                    ..slot
                                };
                                proof {
                                    assert(self@ =~= run_system_view(old(self)@, label, s));
                                    assert forall|k: int|
                                        0 <= k < self@.states.len() implies #[trigger] self@.states[k].state_type
                                        == old(self)@.states[k].state_type by {}
                                }
                            },
                            None => {
                                proof {
                                    assert(self@ =~= run_system_view(old(self)@, label, s));
                                }
                            },
                        }
                    },
                    None => {
                        proof {
                            assert(self@ =~= run_system_view(old(self)@, label, s));
                        }
                    },
                }
            },
        }
    }

    /// Runs the schedule named `label`: its systems strictly in registration
    /// order. A label with no registered schedule runs as an empty,
    /// successful no-op — a tick never fails because a schedule was not wired
    /// up.
    pub fn run_schedule(&mut self, label: Label)
        requires
            old(self)@.wf(),
        ensures
            final(self)@ == run_schedule_view(old(self)@, label),
            final(self)@.wf(),
    {
        let ghost m0 = old(self)@;
        let found = self.schedules.find_index(label);
        match found {
            None => {
                proof {
                    assert(systems_of(m0.schedules, label) =~= Seq::<System>::empty());
                    assert(run_schedule_view(m0, label) == m0);
                }
            },
            Some(k) => {
                let ghost ss = systems_of(m0.schedules, label);
                proof {
                    assert(ss == m0.schedules[k as int].systems);
                    assert(m0.schedules[k as int] == self.schedules.entries@[k as int]@);
                    assert(ss.take(0) =~= Seq::<System>::empty());
                }
                let n = self.schedules.entries[k].systems.len();
                let mut j: usize = 0;
                while j < n
                    invariant
                        j <= n,
                        n == ss.len(),
                        m0.wf(),
                        self@.wf(),
                        self@ == run_systems_view(m0, label, ss.take(j as int)),
                        self@.schedules == m0.schedules,
                        k < m0.schedules.len(),
                        k < self.schedules.entries@.len(),
                        self.schedules@[k as int].systems == ss,
                    decreases n - j,
                {
                    proof {
                        assert(self.schedules@[k as int] == self.schedules.entries@[k as int]@);
                    }
                    let s = self.schedules.entries[k].systems[j];
                    proof {
                        assert(s == ss[j as int]);
                    }
                    self.run_system(label, s);
                    proof {
                        lemma_run_systems_snoc(m0, label, ss.take(j as int), s);
                        assert(ss.take(j as int).push(s) =~= ss.take(j + 1 as int));
                        lemma_run_systems_props(m0, label, ss.take(j + 1 as int));
                        assert(self.schedules@.len() == self.schedules.entries@.len());
                    }
                    j += 1;
                }
                proof {
                    assert(ss.take(n as int) =~= ss);
                }
            },
        }
    }

    /// One process tick: overwrites the process delta with the elapsed value,
    /// then runs the process-order schedules strictly in order. A missing
    /// schedule never aborts the remaining ones.
    pub fn process(&mut self, delta: u64)
        requires
            old(self)@.wf(),
        ensures
            final(self)@ == process_tick_view(old(self)@, delta),
            final(self)@.wf(),
    {
        self.process_delta = delta;
        let ghost m1 = self@;
        proof {
            assert(m1 =~= (EcsView { process_delta: delta, ..old(self)@ }));
            assert(m1.wf());
            assert(m1.process_order.take(0) =~= Seq::<Label>::empty());
        }
        let n = self.schedule_order.process.len();
        let mut i: usize = 0;
        while i < n
            invariant
                i <= n,
                n == m1.process_order.len(),
                m1.wf(),
                self@.wf(),
                self@ == run_labels_view(m1, m1.process_order.take(i as int)),
                self@.process_order == m1.process_order,
            decreases n - i,
        {
            let label = self.schedule_order.process[i];
            proof {
                assert(label == m1.process_order[i as int]);
            }
            self.run_schedule(label);
            proof {
                lemma_run_labels_snoc(m1, m1.process_order.take(i as int), label);
                assert(m1.process_order.take(i as int).push(label) =~= m1.process_order.take(
                    i + 1 as int,
                ));
                lemma_run_labels_props(m1, m1.process_order.take(i + 1 as int));
            }
            i += 1;
        }
        proof {
            assert(m1.process_order.take(n as int) =~= m1.process_order);
            assert(old(self)@.process_order == m1.process_order);
        }
    }

    /// One physics tick: symmetric to the process tick, on the physics delta
    /// and the physics order.
    pub fn physics_process(&mut self, delta: u64)
        requires
            old(self)@.wf(),
        ensures
            final(self)@ == physics_tick_view(old(self)@, delta),
            final(self)@.wf(),
    {
        self.physics_delta = delta;
        let ghost m1 = self@;
        proof {
            assert(m1 =~= (EcsView { physics_delta: delta, ..old(self)@ }));
            assert(m1.wf());
            assert(m1.physics_order.take(0) =~= Seq::<Label>::empty());
        }
        let n = self.schedule_order.physics.len();
        let mut i: usize = 0;
        while i < n
            invariant
                i <= n,
                n == m1.physics_order.len(),
                m1.wf(),
                self@.wf(),
                self@ == run_labels_view(m1, m1.physics_order.take(i as int)),
                self@.physics_order == m1.physics_order,
            decreases n - i,
        {
            let label = self.schedule_order.physics[i];
            proof {
                assert(label == m1.physics_order[i as int]);
            }
            self.run_schedule(label);
            proof {
                lemma_run_labels_snoc(m1, m1.physics_order.take(i as int), label);
                assert(m1.physics_order.take(i as int).push(label) =~= m1.physics_order.take(
                    i + 1 as int,
                ));
                lemma_run_labels_props(m1, m1.physics_order.take(i + 1 as int));
            }
            i += 1;
        }
        proof {
            assert(m1.physics_order.take(n as int) =~= m1.physics_order);
            assert(old(self)@.physics_order == m1.physics_order);
        }
    }
}

} // verus!
