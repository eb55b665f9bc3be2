//! The legal-command type-state machine: a finite-state model of what the
//! physical car is legally doing right now. It consumes one action at a
//! time, validates it against the current state, emits the corresponding
//! wire command when the transition is legal, and ignores the action — the
//! core safety valve — when it is not. The hardware enters a permanent
//! fault on any illegal command, so only legal transitions may ever emit.

use vstd::prelude::*;

use crate::codec::Command;
use crate::sched_events::Action;

verus! {

/// What the physical car is legally doing right now. Exactly one state is
/// current at any time; it is replaced, never copied, as transitions occur.
#[derive(Clone, Copy, Debug, PartialEq, Eq, Structural)]
pub enum State {
    /// Before the initial reset handshake.
    PreStart,
    Idle,
    MovingUp,
    MovingDown,
    Braking,
    DoorOpening,
    DoorOpened,
    DoorClosing,
}

/// The legality table: which action a state accepts.
pub open spec fn spec_legal(s: State, a: Action) -> bool {
    match (s, a) {
        (State::Idle, Action::MovingUp) => true,
        (State::Idle, Action::MovingDown) => true,
        (State::Idle, Action::OpeningDoor) => true,
        (State::MovingUp, Action::Braking) => true,
        (State::MovingDown, Action::Braking) => true,
        (State::Braking, Action::Stopped) => true,
        (State::DoorOpening, Action::DoorOpened) => true,
        (State::DoorOpened, Action::ClosingDoor) => true,
        (State::DoorClosing, Action::DoorClosed) => true,
        _ => false,
    }
}

/// The transition table: the next state and the command emitted, one
/// action per step. An action illegal in the current state is discarded:
/// the state is unchanged and no command is produced.
pub open spec fn spec_apply(s: State, a: Action) -> (State, Option<Command>) {
    match (s, a) {
        (State::Idle, Action::MovingUp) => (State::MovingUp, Some(Command::MU)),
        (State::Idle, Action::MovingDown) => (State::MovingDown, Some(Command::MD)),
        (State::Idle, Action::OpeningDoor) => (State::DoorOpening, Some(Command::DO)),
        (State::MovingUp, Action::Braking) => (State::Braking, Some(Command::S)),
        (State::MovingDown, Action::Braking) => (State::Braking, Some(Command::S)),
        (State::Braking, Action::Stopped) => (State::Idle, None),
        (State::DoorOpening, Action::DoorOpened) => (State::DoorOpened, None),
        (State::DoorOpened, Action::ClosingDoor) => (State::DoorClosing, Some(Command::DC)),
        (State::DoorClosing, Action::DoorClosed) => (State::Idle, None),
        _ => (s, None),
    }
}

impl State {
    /// Consumes one action: validates it against the current state,
    /// transitions, and emits the wire command the transition owes — or
    /// discards the action, keeping the state, when it is illegal here.
    pub fn apply(self, action: Action) -> (r: (State, Option<Command>))
        ensures
            r == spec_apply(self, action),
            spec_legal(self, action) || (r.0 == self && r.1 is None),
    {
        match (self, action) {
            (State::Idle, Action::MovingUp) => (State::MovingUp, Some(Command::MU)),
            (State::Idle, Action::MovingDown) => (State::MovingDown, Some(Command::MD)),
            (State::Idle, Action::OpeningDoor) => (State::DoorOpening, Some(Command::DO)),
            (State::MovingUp, Action::Braking) => (State::Braking, Some(Command::S)),
            (State::MovingDown, Action::Braking) => (State::Braking, Some(Command::S)),
            (State::Braking, Action::Stopped) => (State::Idle, None),
            (State::DoorOpening, Action::DoorOpened) => (State::DoorOpened, None),
            (State::DoorOpened, Action::ClosingDoor) => (State::DoorClosing, Some(Command::DC)),
            (State::DoorClosing, Action::DoorClosed) => (State::Idle, None),
            _ => (self, None),
        }
    }

    /// The initialization handshake: from the pre-start state the
    /// controller sends exactly one reset and becomes idle. This is the
    /// only way out of pre-start, and the reset is issued exactly once,
    /// before any other command.
    pub fn init(self) -> (r: (State, Command))
        requires
            self == State::PreStart,
        ensures
            r.0 == State::Idle,
            r.1 == Command::R,
    {
        (State::Idle, Command::R)
    }
}

/// Whether a whole schedule applies without a single rejection: each
/// action in turn is legal in the state the previous ones lead to.
pub open spec fn spec_all_legal(s: State, evs: Seq<crate::sched_events::ScheduleEvent>) -> bool
    decreases evs.len(),
{
    if evs.len() == 0 {
        true
    } else {
        spec_legal(s, evs[0].action()) && spec_all_legal(
            spec_apply(s, evs[0].action()).0,
            evs.drop_first(),
        )
    }
}

/// Law: an action that is illegal in the current state is a no-op — the
/// state is unchanged and no command reaches the hardware. In particular,
/// braking while idle leaves the machine idle and emits nothing.
pub proof fn lemma_illegal_action_is_noop(s: State, a: Action)
    requires
        !spec_legal(s, a),
    ensures
        spec_apply(s, a) == (s, None::<Command>),
{
}

} // verus!
