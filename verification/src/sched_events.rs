//! The abstract directive vocabulary of the dispatcher: the intent layer
//! between wire events and wire commands.

use vstd::prelude::*;

verus! {

/// How long a door stays open before the auto-close directive fires, in
/// time units of the delayed schedule.
pub const DOOR_DWELL: u64 = 2;

/// An abstract motor or door directive the dispatch strategy emits and the
/// transition state machine consumes. Not a mirror of the wire events: the
/// intent, decoupled from the wire format.
#[derive(Clone, Copy, Debug, PartialEq, Eq, Structural)]
pub enum Action {
    MovingUp,
    MovingDown,
    Braking,
    Stopped,
    OpeningDoor,
    ClosingDoor,
    DoorOpened,
    DoorClosed,
}

/// An action wrapped with its timing: apply now, or apply after a relative
/// delay (used for the mandatory door-open dwell). Consumed strictly in
/// emission order, one per pipeline step.
#[derive(Clone, Copy, Debug, PartialEq, Eq, Structural)]
pub enum ScheduleEvent {
    Instant(Action),
    WaitTime(u64, Action),
}

impl ScheduleEvent {
    /// The action carried, regardless of timing.
    pub open spec fn action(self) -> Action {
        match self {
            ScheduleEvent::Instant(a) => a,
            ScheduleEvent::WaitTime(_d, a) => a,
        }
    }
}

} // verus!
