use tick_sched::events::EventBuffer;
use tick_sched::events::EventUpdateSignal;
use tick_sched::events::event_queue_update_system;
use tick_sched::events::event_update_system;

#[test]
fn queue_system_only_records_intent() {
    // The shared flag starts unset: no clear has been requested.
    let mut signal = Some(EventUpdateSignal::default());
    assert_eq!(signal, Some(EventUpdateSignal(false)));
    event_queue_update_system(&mut signal);
    assert_eq!(signal, Some(EventUpdateSignal(true)));
    // Requesting again changes nothing: many writers, one consumer.
    event_queue_update_system(&mut signal);
    assert_eq!(signal, Some(EventUpdateSignal(true)));
    // Without the shared resource the request is a no-op.
    let mut absent: Option<EventUpdateSignal> = None;
    event_queue_update_system(&mut absent);
    assert_eq!(absent, None);
}

#[test]
fn update_system_without_signal_always_updates() {
    let mut buffer = EventBuffer::new(7);
    buffer.push(1);
    buffer.push(2);
    let mut absent: Option<EventUpdateSignal> = None;
    // Simple mode: no coordination resource, so the update always happens.
    event_update_system(&mut absent, &mut buffer);
    assert_eq!(buffer.front, vec![1, 2]);
    assert_eq!(buffer.back.len(), 0);
    event_update_system(&mut absent, &mut buffer);
    assert_eq!(buffer.front.len() + buffer.back.len(), 0);
}

#[test]
fn update_system_consumes_the_signal_exactly_once() {
    let mut buffer = EventBuffer::new(7);
    buffer.push(1);
    let mut signal = Some(EventUpdateSignal(true));
    event_update_system(&mut signal, &mut buffer);
    // The request was consumed and the event survived its first update.
    assert_eq!(signal, Some(EventUpdateSignal(false)));
    assert_eq!(buffer.front, vec![1]);
    // An unset signal blocks any further clearing.
    event_update_system(&mut signal, &mut buffer);
    assert_eq!(signal, Some(EventUpdateSignal(false)));
    assert_eq!(buffer.front, vec![1]);
}

#[test]
fn readers_see_each_event_exactly_once() {
    let mut buffer = EventBuffer::new(7);
    buffer.push(1);
    buffer.push(2);
    // A new reader starts at the oldest visible event.
    assert_eq!(buffer.read_new(9), vec![1, 2]);
    assert_eq!(buffer.read_new(9), Vec::<u64>::new());
    buffer.push(3);
    assert_eq!(buffer.read_new(9), vec![3]);
    // An update keeps unread events readable: cursors shift with the buffer.
    buffer.push(4);
    buffer.update();
    assert_eq!(buffer.read_new(9), vec![4]);
    // A second, independent reader still sees everything visible.
    assert_eq!(buffer.read_new(5), vec![1, 2, 3, 4]);
}
