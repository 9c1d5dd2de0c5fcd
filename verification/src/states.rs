use vstd::prelude::*;

verus! {

/// One registered state type: its current value, the pending target value
/// (absent means no transition is requested), and whether its run-once enter
/// system has already fired.
///
/// State values are plain identifiers chosen by the registering module, as
/// are state types; the controller never interprets them.
#[derive(Clone, Copy, PartialEq, Eq, Debug)]
pub struct StateSlot {
    pub state_type: u64,
    pub current: u64,
    pub next: Option<u64>,
    pub entered: bool,
}

/// A record that the enter system of a state type fired, and which current
/// value it saw: the host-visible first-time setup effect.
#[derive(Clone, Copy, PartialEq, Eq, Structural, Debug)]
pub struct EnterRecord {
    pub state_type: u64,
    pub value: u64,
}

/// Whether some slot is registered for the state type `t`.
pub open spec fn has_state(states: Seq<StateSlot>, t: u64) -> bool {
    exists|i: int| 0 <= i < states.len() && #[trigger] states[i].state_type == t
}

/// The index of the slot registered for the state type `t`.
pub open spec fn state_index(states: Seq<StateSlot>, t: u64) -> int {
    choose|i: int| 0 <= i < states.len() && #[trigger] states[i].state_type == t
}

/// The slot registered for the state type `t`.
pub open spec fn state_of(states: Seq<StateSlot>, t: u64) -> StateSlot {
    states[state_index(states, t)]
}

/// Well-formedness: at most one slot per state type.
pub open spec fn state_types_unique(states: Seq<StateSlot>) -> bool {
    forall|i: int, j: int|
        0 <= i < j < states.len() ==> #[trigger] states[i].state_type != #[trigger] states[j].state_type
}

} // verus!
