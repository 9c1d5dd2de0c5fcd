//! A deterministic, tick-driven schedule orchestration core.
//!
//! The host delivers two kinds of tick signals (a variable-rate process tick
//! and a fixed-rate physics tick). On each signal the dispatcher writes the
//! tick's elapsed-time value into the matching delta resource and then runs a
//! fixed, ordered list of named schedules; each schedule runs its systems in
//! registration order. On top of that sit an event-buffer coordinator (events
//! survive until a clear is explicitly requested and consumed) and a generic
//! state-transition controller (a pending state value is applied once per
//! process tick, with a run-once enter system).

pub mod ecs;
pub mod events;
pub mod labels;
pub mod laws;
pub mod model;
pub mod schedules;
pub mod states;
pub mod systems;
