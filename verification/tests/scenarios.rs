use tick_sched::ecs::Ecs;
use tick_sched::events::EventUpdateSignal;
use tick_sched::labels::Label;
use tick_sched::labels::PHYSICS;
use tick_sched::labels::POST_PHYSICS;
use tick_sched::labels::PROCESS;
use tick_sched::systems::System;

const DAMAGE: u64 = 100;
const GAME_PHASE: u64 = 1;
const MENU: u64 = 0;
const PLAYING: u64 = 1;

fn visible_count(ecs: &Ecs, event_type: u64) -> usize {
    let buf = ecs
        .events
        .iter()
        .find(|b| b.event_type == event_type)
        .expect("event type registered");
    buf.front.len() + buf.back.len()
}

#[test]
fn damage_events_survive_process_ticks_without_clear_request() {
    let mut ecs = Ecs::new();
    ecs.add_event(DAMAGE);
    // Three producers in the physics phase push the events during the tick;
    // nothing ever requests a clear because no physics tick runs afterwards.
    ecs.add_systems(Label { id: PHYSICS }, System::PushEvent { event_type: DAMAGE, payload: 7 });
    ecs.add_systems(Label { id: PHYSICS }, System::PushEvent { event_type: DAMAGE, payload: 8 });
    ecs.add_systems(Label { id: PHYSICS }, System::PushEvent { event_type: DAMAGE, payload: 9 });
    ecs.physics_process(16);
    assert_eq!(visible_count(&ecs, DAMAGE), 3);
    for _ in 0..5 {
        ecs.process(16);
        assert_eq!(visible_count(&ecs, DAMAGE), 3);
    }
}

#[test]
fn consumer_sees_events_once_then_they_are_gone() {
    let mut ecs = Ecs::new();
    ecs.add_event(DAMAGE);
    ecs.add_systems(Label { id: PROCESS }, System::ConsumeEvents { event_type: DAMAGE, reader: 1 });
    ecs.add_systems(Label { id: POST_PHYSICS }, System::QueueEventUpdate);
    ecs.send_event(DAMAGE, 10);
    ecs.send_event(DAMAGE, 11);
    ecs.physics_process(16);
    ecs.process(16);
    let seen: Vec<&tick_sched::systems::Observation> =
        ecs.observations.iter().filter(|o| o.observer == 1).collect();
    assert_eq!(seen.len(), 1);
    assert_eq!(seen[0].values, vec![10, 11]);
    ecs.process(16);
    let seen: Vec<&tick_sched::systems::Observation> =
        ecs.observations.iter().filter(|o| o.observer == 1).collect();
    assert_eq!(seen.len(), 2);
    assert_eq!(seen[1].values.len(), 0);
}

#[test]
fn state_transition_applies_once_per_process_tick() {
    let mut ecs = Ecs::new();
    ecs.init_state(GAME_PHASE, MENU);
    ecs.set_next_state(GAME_PHASE, PLAYING);
    ecs.process(16);
    let slot = ecs.states.iter().find(|s| s.state_type == GAME_PHASE).unwrap();
    assert_eq!(slot.current, PLAYING);
    assert_eq!(slot.next, None);
    ecs.process(16);
    let slot = ecs.states.iter().find(|s| s.state_type == GAME_PHASE).unwrap();
    assert_eq!(slot.current, PLAYING);
    assert_eq!(slot.next, None);
}

#[test]
fn events_pushed_in_physics_stay_visible_through_next_process_tick() {
    let mut ecs = Ecs::new();
    ecs.add_event(DAMAGE);
    ecs.add_systems(Label { id: PHYSICS }, System::PushEvent { event_type: DAMAGE, payload: 42 });
    // The default post-physics schedule requests the clear.
    ecs.physics_process(16);
    assert_eq!(visible_count(&ecs, DAMAGE), 1);
    // The next process tick consumes the request, but the event survives one
    // more cycle so the main phase can still observe it.
    ecs.process(16);
    assert_eq!(visible_count(&ecs, DAMAGE), 1);
    assert_eq!(ecs.signal, Some(EventUpdateSignal(false)));
    // Only after another full cycle (a physics tick that requests again, and
    // the process tick that consumes it) is the first event dropped; the
    // producer's second push from that physics tick takes its place.
    ecs.physics_process(16);
    ecs.process(16);
    assert_eq!(visible_count(&ecs, DAMAGE), 1);
    let buf = ecs.events.iter().find(|b| b.event_type == DAMAGE).unwrap();
    assert_eq!(buf.front, vec![42]);
    assert_eq!(buf.back.len(), 0);
}

#[test]
fn signal_resets_after_each_consumed_request() {
    let mut ecs = Ecs::new();
    ecs.add_event(DAMAGE);
    ecs.send_event(DAMAGE, 1);
    assert_eq!(ecs.signal, Some(EventUpdateSignal(false)));
    ecs.physics_process(16); // post-physics requests the clear
    assert_eq!(ecs.signal, Some(EventUpdateSignal(true)));
    ecs.process(16); // pre-process update system consumes it
    assert_eq!(ecs.signal, Some(EventUpdateSignal(false)));
    ecs.process(16); // no new request: stays unset
    assert_eq!(ecs.signal, Some(EventUpdateSignal(false)));
}

#[test]
fn quit_check_signals_host_only_when_pressed() {
    let mut ecs = Ecs::new();
    ecs.process(16);
    assert!(!ecs.quit_signaled());
    ecs.set_quit_pressed(true);
    ecs.process(16);
    assert!(ecs.quit_signaled());
}
