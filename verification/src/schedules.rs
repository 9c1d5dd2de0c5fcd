use vstd::prelude::*;

use crate::labels::Label;
use crate::systems::System;

verus! {

/// One named schedule: an ordered list of systems, run strictly in
/// registration order.
pub struct ScheduleEntry {
    pub label: Label,
    pub systems: Vec<System>,
}

/// The mathematical model of one schedule.
#[verifier::ext_equal]
pub ghost struct ScheduleView {
    pub label: Label,
    pub systems: Seq<System>,
}

impl View for ScheduleEntry {
    type V = ScheduleView;

    open spec fn view(&self) -> ScheduleView {
        ScheduleView { label: self.label, systems: self.systems@ }
    }
}

/// Whether a schedule is registered under `label`.
pub open spec fn has_schedule(s: Seq<ScheduleView>, label: Label) -> bool {
    exists|i: int| 0 <= i < s.len() && #[trigger] s[i].label == label
}

/// The index of the schedule registered under `label`.
pub open spec fn schedule_index(s: Seq<ScheduleView>, label: Label) -> int {
    choose|i: int| 0 <= i < s.len() && #[trigger] s[i].label == label
}

/// The ordered systems of the schedule named `label`; a label with no
/// registered schedule has no systems, which is not an error.
pub open spec fn systems_of(s: Seq<ScheduleView>, label: Label) -> Seq<System> {
    if has_schedule(s, label) {
        s[schedule_index(s, label)].systems
    } else {
        Seq::<System>::empty()
    }
}

/// Well-formedness: at most one schedule per label.
pub open spec fn labels_unique(s: Seq<ScheduleView>) -> bool {
    forall|i: int, j: int| 0 <= i < j < s.len() ==> #[trigger] s[i].label != #[trigger] s[j].label
}

/// The registry after `system` is registered under `label`: appended to the
/// existing schedule, or to a freshly created one if the label is new.
pub open spec fn register_view(s: Seq<ScheduleView>, label: Label, system: System) -> Seq<
    ScheduleView,
> {
    if has_schedule(s, label) {
        let i = schedule_index(s, label);
        s.update(i, ScheduleView { label, systems: s[i].systems.push(system) })
    } else {
        s.push(ScheduleView { label, systems: seq![system] })
    }
}

/// Registration preserves label uniqueness, keeps every other schedule as it
/// was, and leaves the registered system last in its schedule's order.
pub proof fn lemma_register_view(s: Seq<ScheduleView>, label: Label, system: System)
    requires
        labels_unique(s),
    ensures
        labels_unique(register_view(s, label, system)),
        has_schedule(register_view(s, label, system), label),
        systems_of(register_view(s, label, system), label) == systems_of(s, label).push(system),
        forall|l: Label|
            l != label ==> #[trigger] systems_of(register_view(s, label, system), l) == systems_of(
                s,
                l,
            ),
{
    let r = register_view(s, label, system);
    if has_schedule(s, label) {
        let i = schedule_index(s, label);
        assert(0 <= i < s.len() && s[i].label == label);
        assert(forall|k: int| 0 <= k < r.len() ==> #[trigger] r[k].label == s[k].label);
        assert(r[i].label == label);
        assert(has_schedule(r, label));
        let j = schedule_index(r, label);
        assert(0 <= j < r.len() && r[j].label == label);
        assert(s[j].label == label);
        assert(j == i);
        assert forall|l: Label| l != label implies #[trigger] systems_of(r, l) == systems_of(
            s,
            l,
        ) by {
            lemma_other_label_stable(s, r, l);
        }
    } else {
        assert(systems_of(s, label) =~= Seq::<System>::empty());
        assert(forall|k: int| 0 <= k < s.len() ==> #[trigger] r[k].label == s[k].label);
        assert(r[r.len() - 1].label == label);
        assert(has_schedule(r, label));
        let j = schedule_index(r, label);
        assert(0 <= j < r.len() && r[j].label == label);
        assert(j == r.len() - 1) by {
            if j < r.len() - 1 {
                assert(s[j].label == label);
                assert(has_schedule(s, label));
            }
        }
        assert(labels_unique(r)) by {
            assert forall|k: int, l: int| 0 <= k < l < r.len() implies #[trigger] r[k].label
                != #[trigger] r[l].label by {
                if l < r.len() - 1 {
                } else {
                    assert(r[l].label == label);
                    if r[k].label == label {
                        assert(s[k].label == label);
                        assert(has_schedule(s, label));
                    }
                }
            }
        }
        assert(systems_of(r, label) =~= systems_of(s, label).push(system));
        assert forall|l: Label| l != label implies #[trigger] systems_of(r, l) == systems_of(
            s,
            l,
        ) by {
            lemma_other_label_stable(s, r, l);
        }
    }
}

/// A label left untouched by a registration keeps its systems.
proof fn lemma_other_label_stable(s: Seq<ScheduleView>, r: Seq<ScheduleView>, l: Label)
    requires
        labels_unique(s),
        s.len() <= r.len(),
        forall|k: int| 0 <= k < s.len() ==> #[trigger] r[k].label == s[k].label,
        forall|k: int| 0 <= k < s.len() && s[k].label == l ==> #[trigger] r[k] == s[k],
        forall|k: int| s.len() <= k < r.len() ==> #[trigger] r[k].label != l,
    ensures
        systems_of(r, l) == systems_of(s, l),
{
    if has_schedule(s, l) {
        let i = schedule_index(s, l);
        assert(0 <= i < s.len() && s[i].label == l);
        assert(r[i].label == l);
        assert(has_schedule(r, l));
        let j = schedule_index(r, l);
        assert(0 <= j < r.len() && r[j].label == l);
        assert(j < s.len());
        assert(s[j].label == l);
        assert(j == i);
        assert(r[i] == s[i]);
    } else {
        if has_schedule(r, l) {
            let j = schedule_index(r, l);
            assert(0 <= j < r.len() && r[j].label == l);
            assert(j < s.len() ==> s[j].label == l);
        }
        assert(!has_schedule(r, l));
    }
}

/// The registry: a mapping from schedule label to its ordered systems.
pub struct Schedules {
    pub entries: Vec<ScheduleEntry>,
}

impl View for Schedules {
    type V = Seq<ScheduleView>;

    open spec fn view(&self) -> Seq<ScheduleView> {
        self.entries@.map_values(|e: ScheduleEntry| e@)
    }
}

impl Schedules {
    /// An empty registry.
    pub fn new() -> (s: Schedules)
        ensures
            s@ == Seq::<ScheduleView>::empty(),
            labels_unique(s@),
    {
        let s = Schedules { entries: Vec::new() };
        proof {
            assert(s@ =~= Seq::<ScheduleView>::empty());
        }
        s
    }

    /// Finds the position of the schedule named `label`, if one exists.
    pub(crate) fn find_index(&self, label: Label) -> (r: Option<usize>)
        requires
            labels_unique(self@),
        ensures
            match r {
                Option::Some(i) => i < self@.len() && self@[i as int].label == label
                    && has_schedule(self@, label) && i as int == schedule_index(self@, label),
                Option::None => !has_schedule(self@, label),
            },
    {
        let mut i: usize = 0;
        while i < self.entries.len() && !(self.entries[i].label == label)
            invariant
                i <= self.entries.len(),
                labels_unique(self@),
                forall|j: int| 0 <= j < i ==> #[trigger] self@[j].label != label,
            decreases self.entries.len() - i,
        {
            proof {
                assert(self@[i as int].label == self.entries@[i as int].label);
            }
            i += 1;
        }
        if i < self.entries.len() {
            proof {
                assert(self@[i as int].label == label);
                assert(has_schedule(self@, label));
                let c = schedule_index(self@, label);
                assert(0 <= c < self@.len() && self@[c].label == label);
                assert(c == i as int);
            }
            Some(i)
        } else {
            proof {
                assert(forall|j: int| 0 <= j < self@.len() ==> #[trigger] self@[j].label != label);
            }
            None
        }
    }

    /// Registers `system` under `label`: creates an empty schedule first if
    /// the label is new (idempotent with respect to schedule creation), then
    /// appends the system. Registering the same system twice runs it twice.
    pub fn register(&mut self, label: Label, system: System)
        requires
            labels_unique(old(self)@),
        ensures
            final(self)@ == register_view(old(self)@, label, system),
            labels_unique(final(self)@),
    {
        let found = self.find_index(label);
        match found {
            Some(i) => {
                let mut entry = self.entries.remove(i);
                entry.systems.push(system);
                self.entries.insert(i, entry);
                proof {
                    assert(self@ =~= register_view(old(self)@, label, system));
                    assert(labels_unique(self@)) by {
                        assert(forall|k: int|
                            0 <= k < self@.len() ==> #[trigger] self@[k].label == old(self)@[k].label);
                    }
                }
            },
            None => {
                let mut systems: Vec<System> = Vec::new();
                systems.push(system);
                self.entries.push(ScheduleEntry { label, systems });
                proof {
                    assert(systems@ =~= seq![system]);
                    assert(self@ =~= register_view(old(self)@, label, system));
                    assert(labels_unique(self@)) by {
                        assert(forall|k: int|
                            0 <= k < old(self)@.len() ==> #[trigger] self@[k].label == old(self)@[k].label);
                        assert(self@[self@.len() - 1].label == label);
                        assert(!has_schedule(old(self)@, label));
                    }
                }
            },
        }
    }

    /// The number of registered schedules.
    pub fn len(&self) -> (n: usize)
        ensures
            n == self@.len(),
    {
        self.entries.len()
    }
}

} // verus!
