use vstd::prelude::*;

verus! {

/// The shared should-clear coordination flag.
///
/// Many systems may request a clear by setting it; exactly one auto-inserted
/// update system per event type reads and resets it. The flag decouples "a
/// system requested clearing" from "clearing actually happens", so a clear
/// request is consumed exactly once and never leaks into the next tick.
#[derive(Clone, Copy, PartialEq, Eq, Structural, Debug)]
pub struct EventUpdateSignal(pub bool);

impl Default for EventUpdateSignal {
    /// The signal starts unset: no clear has been requested.
    fn default() -> (r: EventUpdateSignal)
        ensures
            r.0 == false,
    {
        EventUpdateSignal(false)
    }
}

/// True when the signal resource is present.
pub open spec fn signal_present(s: Option<EventUpdateSignal>) -> bool {
    s is Some
}

/// True when the signal resource is present and currently set.
pub open spec fn signal_is_set(s: Option<EventUpdateSignal>) -> bool {
    match s {
        Option::Some(x) => x.0,
        Option::None => false,
    }
}

/// A consumer's read position within one event buffer: the number of visible
/// events the reader has already observed.
#[derive(Clone, Copy, PartialEq, Eq, Structural, Debug)]
pub struct EventReader {
    pub id: u64,
    pub cursor: usize,
}

/// An accumulating buffer of typed event payloads.
///
/// The buffer is split in two halves: `back` holds events pushed since the
/// last update, `front` holds events that have survived exactly one update.
/// An update drops `front` and moves `back` into it, so every event stays
/// visible for one full cycle after the update that follows its push —
/// consumers get at least one whole tick to observe it.
pub struct EventBuffer {
    pub event_type: u64,
    pub front: Vec<u64>,
    pub back: Vec<u64>,
    pub readers: Vec<EventReader>,
}

/// The mathematical model of an event buffer.
#[verifier::ext_equal]
pub ghost struct EventBufferView {
    pub event_type: u64,
    pub front: Seq<u64>,
    pub back: Seq<u64>,
    pub readers: Seq<EventReader>,
}

impl View for EventBuffer {
    type V = EventBufferView;

    open spec fn view(&self) -> EventBufferView {
        EventBufferView {
            event_type: self.event_type,
            front: self.front@,
            back: self.back@,
            readers: self.readers@,
        }
    }
}

impl EventBufferView {
    /// All events currently observable by consumers, oldest first.
    pub open spec fn visible(self) -> Seq<u64> {
        self.front + self.back
    }

    /// Well-formedness: reader identities are distinct, every cursor lies
    /// within the visible events, and the buffer stays within machine bounds.
    pub open spec fn wf(self) -> bool {
        &&& self.front.len() + self.back.len() < usize::MAX
        &&& (forall|i: int, j: int|
            0 <= i < j < self.readers.len() ==> #[trigger] self.readers[i].id != #[trigger] self.readers[j].id)
        &&& (forall|i: int|
            0 <= i < self.readers.len() ==> #[trigger] self.readers[i].cursor <= self.visible().len())
    }

    /// The buffer after a producer appends `payload`. At the machine's
    /// capacity bound the event is dropped instead; that bound is never
    /// reached in practice.
    pub open spec fn pushed(self, payload: u64) -> EventBufferView {
        if self.front.len() + self.back.len() + 1 < usize::MAX {
            EventBufferView { back: self.back.push(payload), ..self }
        } else {
            self
        }
    }

    /// One reader after an update drops the `dropped` oldest visible events.
    pub open spec fn reader_after_update(r: EventReader, dropped: nat) -> EventReader {
        EventReader {
            id: r.id,
            cursor: if r.cursor <= dropped {
                0usize
            } else {
                (r.cursor - dropped) as usize
            },
        }
    }

    /// The buffer after one update: the events that had already survived one
    /// update are dropped, the newly pushed ones move into their place, and
    /// reader cursors shift with them.
    pub open spec fn updated(self) -> EventBufferView {
        EventBufferView {
            event_type: self.event_type,
            front: self.back,
            back: Seq::<u64>::empty(),
            readers: self.readers.map_values(
                |r: EventReader| EventBufferView::reader_after_update(r, self.front.len()),
            ),
        }
    }

    /// Whether some reader is registered under `id`.
    pub open spec fn has_reader(self, id: u64) -> bool {
        exists|i: int| 0 <= i < self.readers.len() && #[trigger] self.readers[i].id == id
    }

    /// The index of the reader registered under `id`.
    pub open spec fn reader_index(self, id: u64) -> int {
        choose|i: int| 0 <= i < self.readers.len() && #[trigger] self.readers[i].id == id
    }

    /// The cursor of the reader named `id`; a reader not yet registered has
    /// seen nothing.
    pub open spec fn cursor_of(self, id: u64) -> nat {
        if self.has_reader(id) {
            self.readers[self.reader_index(id)].cursor as nat
        } else {
            0nat
        }
    }

    /// The visible events the reader named `id` has not observed yet.
    pub open spec fn new_events_for(self, id: u64) -> Seq<u64> {
        self.visible().subrange(self.cursor_of(id) as int, self.visible().len() as int)
    }

    /// The buffer after the reader named `id` observes everything visible.
    pub open spec fn after_read(self, id: u64) -> EventBufferView {
        let caught_up = EventReader { id, cursor: self.visible().len() as usize };
        if self.has_reader(id) {
            EventBufferView {
                readers: self.readers.update(self.reader_index(id), caught_up),
                ..self
            }
        } else {
            EventBufferView { readers: self.readers.push(caught_up), ..self }
        }
    }
}

impl EventBuffer {
    /// An empty buffer for the given event type.
    pub fn new(event_type: u64) -> (b: EventBuffer)
        ensures
            b@ == (EventBufferView {
                event_type,
                front: Seq::<u64>::empty(),
                back: Seq::<u64>::empty(),
                readers: Seq::<EventReader>::empty(),
            }),
            b@.wf(),
    {
        let b = EventBuffer { event_type, front: Vec::new(), back: Vec::new(), readers: Vec::new() };
        proof {
            assert(b@ =~= (EventBufferView {
                event_type,
                front: Seq::<u64>::empty(),
                back: Seq::<u64>::empty(),
                readers: Seq::<EventReader>::empty(),
            }));
        }
        b
    }

    /// Appends one event payload.
    pub fn push(&mut self, payload: u64)
        requires
            old(self)@.wf(),
        ensures
            final(self)@ == old(self)@.pushed(payload),
            final(self)@.wf(),
    {
        if self.front.len() + self.back.len() < usize::MAX - 1 {
            self.back.push(payload);
            proof {
                assert(self@ =~= old(self)@.pushed(payload));
            }
        } else {
            proof {
                assert(self@ =~= old(self)@.pushed(payload));
            }
        }
    }

    /// Performs one update: drops the older half, moves the newer half into
    /// its place, and shifts reader cursors accordingly.
    pub fn update(&mut self)
        requires
            old(self)@.wf(),
        ensures
            final(self)@ == old(self)@.updated(),
            final(self)@.wf(),
    {
        let dropped = self.front.len();
        let mut i: usize = 0;
        while i < self.readers.len()
            invariant
                i <= self.readers.len(),
                self.readers.len() == old(self).readers.len(),
                self.event_type == old(self).event_type,
                self.front@ == old(self).front@,
                self.back@ == old(self).back@,
                dropped == old(self).front@.len(),
                forall|j: int|
                    0 <= j < i ==> #[trigger] self.readers@[j] == EventBufferView::reader_after_update(
                        old(self).readers@[j],
                        old(self).front@.len(),
                    ),
                forall|j: int| i <= j < self.readers.len() ==> #[trigger] self.readers@[j] == old(self).readers@[j],
                old(self)@.wf(),
            decreases self.readers.len() - i,
        {
            let r = self.readers[i];
            let cursor: usize = if r.cursor <= dropped {
                0
            } else {
                r.cursor - dropped
            };
            self.readers[i] = EventReader { id: r.id, cursor };
            i += 1;
        }
        self.front.clear();
        self.front.append(&mut self.back);
        proof {
            assert(self.readers@ =~= old(self).readers@.map_values(
                |r: EventReader| EventBufferView::reader_after_update(r, old(self).front@.len()),
            ));
            assert(self@ =~= old(self)@.updated());
        }
    }

    /// Reads the events the reader named `reader_id` has not seen yet, and
    /// moves its cursor past them. A reader not seen before is registered,
    /// starting from the oldest visible event.
    pub fn read_new(&mut self, reader_id: u64) -> (values: Vec<u64>)
        requires
            old(self)@.wf(),
        ensures
            values@ == old(self)@.new_events_for(reader_id),
            final(self)@ == old(self)@.after_read(reader_id),
            final(self)@.wf(),
    {
        let mut i: usize = 0;
        while i < self.readers.len() && self.readers[i].id != reader_id
            invariant
                i <= self.readers.len(),
                self == old(self),
                forall|j: int| 0 <= j < i ==> #[trigger] self.readers@[j].id != reader_id,
            decreases self.readers.len() - i,
        {
            i += 1;
        }
        let found: Option<usize> = if i < self.readers.len() {
            Some(i)
        } else {
            None
        };
        proof {
            match found {
                Option::Some(k) => {
                    assert(self.readers@[k as int].id == reader_id);
                    assert(old(self)@.has_reader(reader_id));
                    let c = old(self)@.reader_index(reader_id);
                    assert(0 <= c < self.readers@.len() && self.readers@[c].id == reader_id);
                    assert(c == k as int);
                },
                Option::None => {
                    assert(forall|j: int|
                        0 <= j < old(self)@.readers.len() ==> #[trigger] old(self)@.readers[j].id != reader_id);
                    assert(!old(self)@.has_reader(reader_id));
                },
            }
        }
        let cursor: usize = match found {
            Some(k) => self.readers[k].cursor,
            None => 0,
        };
        let total = self.front.len() + self.back.len();
        let mut values: Vec<u64> = Vec::new();
        let mut j: usize = cursor;
        proof {
            assert(cursor <= total);
        }
        while j < total
            invariant
                cursor <= j <= total,
                self == old(self),
                total == self.front@.len() + self.back@.len(),
                values@ == self@.visible().subrange(cursor as int, j as int),
            decreases total - j,
        {
            let v = if j < self.front.len() {
                self.front[j]
            } else {
                self.back[j - self.front.len()]
            };
            values.push(v);
            proof {
                assert(self@.visible()[j as int] == v);
                assert(values@ =~= self@.visible().subrange(cursor as int, j + 1 as int));
            }
            j += 1;
        }
        let caught_up = EventReader { id: reader_id, cursor: total };
        match found {
            Some(k) => {
                self.readers[k] = caught_up;
            },
            None => {
                self.readers.push(caught_up);
            },
        }
        proof {
            assert(values@ =~= old(self)@.new_events_for(reader_id));
            assert(self@ =~= old(self)@.after_read(reader_id));
        }
        values
    }
}

/// A push preserves well-formedness and never changes the buffer's type,
/// its already-visible prefix, or its readers.
pub proof fn lemma_pushed_wf(b: EventBufferView, payload: u64)
    requires
        b.wf(),
    ensures
        b.pushed(payload).wf(),
        b.pushed(payload).event_type == b.event_type,
        b.pushed(payload).readers == b.readers,
        b.visible().is_prefix_of(b.pushed(payload).visible()),
{
    assert(b.pushed(payload).visible().len() >= b.visible().len());
    assert(b.visible().is_prefix_of(b.pushed(payload).visible())) by {
        assert(b.pushed(payload).visible().take(b.visible().len() as int) =~= b.visible());
    }
}

/// An update preserves well-formedness and the buffer's type.
pub proof fn lemma_updated_wf(b: EventBufferView)
    requires
        b.wf(),
    ensures
        b.updated().wf(),
        b.updated().event_type == b.event_type,
        b.updated().visible() == b.back,
{
    let u = b.updated();
    assert(u.visible() =~= b.back);
    assert forall|i: int| 0 <= i < u.readers.len() implies #[trigger] u.readers[i].cursor
        <= u.visible().len() by {
        assert(u.readers[i] == EventBufferView::reader_after_update(b.readers[i], b.front.len()));
    }
    assert forall|i: int, j: int| 0 <= i < j < u.readers.len() implies #[trigger] u.readers[i].id
        != #[trigger] u.readers[j].id by {
        assert(u.readers[i].id == b.readers[i].id);
        assert(u.readers[j].id == b.readers[j].id);
    }
}

/// A read preserves well-formedness and changes nothing but the reader's
/// cursor.
pub proof fn lemma_after_read_wf(b: EventBufferView, id: u64)
    requires
        b.wf(),
    ensures
        b.after_read(id).wf(),
        b.after_read(id).event_type == b.event_type,
        b.after_read(id).visible() == b.visible(),
{
    let r = b.after_read(id);
    assert(r.visible() =~= b.visible());
    if b.has_reader(id) {
        let i = b.reader_index(id);
        assert(0 <= i < b.readers.len() && b.readers[i].id == id);
        assert forall|k: int, l: int| 0 <= k < l < r.readers.len() implies #[trigger] r.readers[k].id
            != #[trigger] r.readers[l].id by {
            assert(r.readers[k].id == b.readers[k].id);
            assert(r.readers[l].id == b.readers[l].id);
        }
    } else {
        assert forall|k: int, l: int| 0 <= k < l < r.readers.len() implies #[trigger] r.readers[k].id
            != #[trigger] r.readers[l].id by {
            if l < b.readers.len() {
            } else {
                assert(r.readers[l].id == id);
                assert(r.readers[k].id == b.readers[k].id);
            }
        }
    }
}

/// A system that requests a buffered clear: if the shared signal resource is
/// present it is set; nothing is cleared here, only the intent is recorded.
pub fn event_queue_update_system(signal: &mut Option<EventUpdateSignal>)
    ensures
        signal_present(*old(signal)) ==> *final(signal) == Option::Some(EventUpdateSignal(true)),
        !signal_present(*old(signal)) ==> *final(signal) == *old(signal),
{
    if signal.is_some() {
        *signal = Some(EventUpdateSignal(true));
    }
}

/// The per-event-type update system. When the shared signal is absent it
/// always updates the buffer (simple mode, no coordination). When the signal
/// is present, the buffer is updated only if the signal is currently set, and
/// the signal is reset in either case, so each clear request is consumed
/// exactly once.
pub fn event_update_system(signal: &mut Option<EventUpdateSignal>, events: &mut EventBuffer)
    requires
        old(events)@.wf(),
    ensures
        final(events)@.wf(),
        !signal_present(*old(signal)) ==> *final(signal) == *old(signal) && final(events)@ == old(events)@.updated(),
        signal_present(*old(signal)) ==> *final(signal) == Option::Some(EventUpdateSignal(false)),
        signal_present(*old(signal)) && signal_is_set(*old(signal)) ==> final(events)@ == old(events)@.updated(),
        signal_present(*old(signal)) && !signal_is_set(*old(signal)) ==> final(events)@ == old(events)@,
{
    let was_set: bool = match *signal {
        Some(s) => s.0,
        None => false,
    };
    if signal.is_some() {
        *signal = Some(EventUpdateSignal(false));
        if was_set {
            events.update();
        }
    } else {
        events.update();
    }
}

} // verus!
