use tick_sched::ecs::Ecs;
use tick_sched::labels::Label;
use tick_sched::labels::PHYSICS;
use tick_sched::labels::POST_PHYSICS;
use tick_sched::labels::PRE_PROCESS;
use tick_sched::labels::PROCESS;
use tick_sched::labels::STATE_TRANSITION;
use tick_sched::systems::System;
use tick_sched::systems::TraceEntry;

const DAMAGE: u64 = 100;
const HEAL: u64 = 101;
const GAME_PHASE: u64 = 1;
const MENU: u64 = 0;
const PLAYING: u64 = 1;

#[test]
fn process_tick_runs_schedules_in_declared_order() {
    let mut ecs = Ecs::new();
    ecs.add_systems(
        Label { id: STATE_TRANSITION },
        System::ReadProcessDelta { observer: 1 },
    );
    ecs.add_systems(Label { id: PRE_PROCESS }, System::ReadProcessDelta { observer: 2 });
    ecs.add_systems(Label { id: PROCESS }, System::ReadProcessDelta { observer: 3 });
    ecs.add_systems(Label { id: PHYSICS }, System::ReadPhysicsDelta { observer: 4 });
    ecs.process(5);
    let expected = vec![
        TraceEntry {
            label: Label { id: STATE_TRANSITION },
            system: System::ReadProcessDelta { observer: 1 },
        },
        TraceEntry {
            label: Label { id: PRE_PROCESS },
            system: System::ReadProcessDelta { observer: 2 },
        },
        TraceEntry { label: Label { id: PROCESS }, system: System::QuitCheck },
        TraceEntry {
            label: Label { id: PROCESS },
            system: System::ReadProcessDelta { observer: 3 },
        },
    ];
    assert_eq!(ecs.trace, expected);
    // No physics-order schedule interleaved.
    assert!(ecs.trace.iter().all(|e| e.label.id != PHYSICS && e.label.id != POST_PHYSICS));
}

#[test]
fn deltas_are_isolated_between_tick_kinds() {
    let mut ecs = Ecs::new();
    ecs.add_systems(Label { id: PROCESS }, System::ReadProcessDelta { observer: 1 });
    ecs.add_systems(Label { id: PHYSICS }, System::ReadPhysicsDelta { observer: 2 });
    ecs.process(7);
    ecs.physics_process(9);
    assert_eq!(ecs.process_delta, 7);
    assert_eq!(ecs.physics_delta, 9);
    let process_reads: Vec<&tick_sched::systems::Observation> =
        ecs.observations.iter().filter(|o| o.observer == 1).collect();
    let physics_reads: Vec<&tick_sched::systems::Observation> =
        ecs.observations.iter().filter(|o| o.observer == 2).collect();
    assert_eq!(process_reads[0].values, vec![7]);
    assert_eq!(physics_reads[0].values, vec![9]);
    // Order history does not matter: another round with new values.
    ecs.physics_process(11);
    ecs.process(13);
    assert_eq!(ecs.process_delta, 13);
    assert_eq!(ecs.physics_delta, 11);
}

#[test]
fn missing_schedule_is_a_silent_noop() {
    let mut ecs = Ecs::new();
    // The default process order names state-transition and pre-process labels
    // that have no registered schedules yet: the tick must still succeed and
    // only the registered process schedule leaves any record.
    ecs.process(16);
    assert_eq!(ecs.trace.len(), 1);
    assert_eq!(ecs.trace[0].label, Label { id: PROCESS });
    assert_eq!(ecs.observations.len(), 0);
    // Running an unknown label directly changes nothing at all.
    let trace_before = ecs.trace.len();
    let schedules_before = ecs.schedules.len();
    ecs.run_schedule(Label::new(999));
    assert_eq!(ecs.trace.len(), trace_before);
    assert_eq!(ecs.schedules.len(), schedules_before);
}

#[test]
fn enter_system_fires_exactly_once_despite_reregistration() {
    let mut ecs = Ecs::new();
    ecs.init_state(GAME_PHASE, MENU);
    // A second registration, even with another initial value, is a guarded
    // no-op: no duplicate slot, no duplicate transition systems.
    ecs.init_state(GAME_PHASE, PLAYING);
    assert_eq!(ecs.states.len(), 1);
    for _ in 0..4 {
        ecs.process(16);
        ecs.physics_process(16);
    }
    let fired: Vec<&tick_sched::states::EnterRecord> =
        ecs.enters.iter().filter(|e| e.state_type == GAME_PHASE).collect();
    assert_eq!(fired.len(), 1);
    assert_eq!(fired[0].value, MENU);
}

#[test]
fn registering_a_system_twice_runs_it_twice() {
    let mut ecs = Ecs::new();
    ecs.add_event(DAMAGE);
    let producer = System::PushEvent { event_type: DAMAGE, payload: 3 };
    ecs.add_systems(Label { id: PROCESS }, producer);
    ecs.add_systems(Label { id: PROCESS }, producer);
    ecs.process(16);
    let buf = ecs.events.iter().find(|b| b.event_type == DAMAGE).unwrap();
    assert_eq!(buf.back, vec![3, 3]);
}

#[test]
fn event_registration_is_idempotent_and_buffers_are_independent() {
    let mut ecs = Ecs::new();
    ecs.add_event(DAMAGE);
    ecs.add_event(DAMAGE);
    ecs.add_event(HEAL);
    assert_eq!(ecs.events.len(), 2);
    // Exactly one auto-inserted update system per type, in pre-process.
    let pre = ecs
        .schedules
        .entries
        .iter()
        .find(|e| e.label == Label { id: PRE_PROCESS })
        .unwrap();
    assert_eq!(
        pre.systems,
        vec![
            System::EventUpdate { event_type: DAMAGE },
            System::EventUpdate { event_type: HEAL },
        ]
    );
    ecs.send_event(DAMAGE, 5);
    let damage = ecs.events.iter().find(|b| b.event_type == DAMAGE).unwrap();
    let heal = ecs.events.iter().find(|b| b.event_type == HEAL).unwrap();
    assert_eq!(damage.back, vec![5]);
    assert_eq!(heal.back.len() + heal.front.len(), 0);
}

#[test]
fn sending_to_an_unregistered_event_type_is_ignored() {
    let mut ecs = Ecs::new();
    ecs.send_event(DAMAGE, 5);
    assert_eq!(ecs.events.len(), 0);
    ecs.set_next_state(GAME_PHASE, PLAYING);
    assert_eq!(ecs.states.len(), 0);
}

#[test]
fn default_orders_and_schedules_are_wired_as_documented() {
    let ecs = Ecs::new();
    let process_ids: Vec<u64> = ecs.schedule_order.process.iter().map(|l| l.id).collect();
    let physics_ids: Vec<u64> = ecs.schedule_order.physics.iter().map(|l| l.id).collect();
    assert_eq!(process_ids, vec![STATE_TRANSITION, PRE_PROCESS, PROCESS]);
    assert_eq!(physics_ids, vec![PHYSICS, POST_PHYSICS]);
    assert_eq!(ecs.schedules.entries.len(), 2);
    assert_eq!(ecs.schedules.entries[0].label, Label { id: PROCESS });
    assert_eq!(ecs.schedules.entries[0].systems, vec![System::QuitCheck]);
    assert_eq!(ecs.schedules.entries[1].label, Label { id: POST_PHYSICS });
    assert_eq!(ecs.schedules.entries[1].systems, vec![System::QueueEventUpdate]);
}
