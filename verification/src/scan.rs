//! The SCAN dispatch policy: given an inbound event and the current
//! transition state, decide which actions to emit, in what order and with
//! what delay, while keeping the scheduling context up to date. Requests
//! are served in one sweep direction until exhausted, then the sweep
//! reverses.

use vstd::prelude::*;

use crate::codec::Event;
use crate::context::{CtxView, ElevatorContext, Location};
use crate::sched_events::{Action, ScheduleEvent, DOOR_DWELL};
use crate::transition::{spec_all_legal, spec_apply, spec_legal, State};

verus! {

/// Per-event handling, before the re-dispatch step.
///
/// Button events queue the floor. Door, stop and approach notices act only
/// when they agree with the model — the expected floor and the expected
/// transition state; anything else is a symptom of drift between hardware
/// and model and changes nothing, rather than being silently reconciled.
pub open spec fn spec_scan_event(c: CtxView, event: Event, state: State) -> (
    CtxView,
    Seq<ScheduleEvent>,
) {
    match event {
        Event::PanelButtonPressed(floor) => (c.spec_enqueue(floor), Seq::<ScheduleEvent>::empty()),
        Event::ElevatorUp(floor) => (c.spec_enqueue(floor), Seq::<ScheduleEvent>::empty()),
        Event::ElevatorDown(floor) => (c.spec_enqueue(floor), Seq::<ScheduleEvent>::empty()),
        Event::DoorOpened(floor) => if c.active_target == Some(floor) && state
            == State::DoorOpening {
            (
                c,
                seq![
                    ScheduleEvent::Instant(Action::DoorOpened),
                    ScheduleEvent::WaitTime(DOOR_DWELL, Action::ClosingDoor),
                ],
            )
        } else {
            (c, Seq::<ScheduleEvent>::empty())
        },
        Event::DoorClosed(_floor) => if state == State::DoorClosing {
            (c, seq![ScheduleEvent::Instant(Action::DoorClosed)])
        } else {
            (c, Seq::<ScheduleEvent>::empty())
        },
        Event::ElevatorStopped(floor) => if c.active_target == Some(floor) && state
            == State::Braking {
            (
                CtxView { current_location: Location::AtFloor(floor), ..c },
                seq![
                    ScheduleEvent::Instant(Action::Stopped),
                    ScheduleEvent::Instant(Action::OpeningDoor),
                ],
            )
        } else {
            (c, Seq::<ScheduleEvent>::empty())
        },
        Event::ElevatorApproaching(floor) => {
            let c1 = if c.min_floor <= floor <= c.max_floor {
                c.spec_approach(floor)
            } else {
                c
            };
            if c1.active_target == Some(floor) && (state == State::MovingUp || state
                == State::MovingDown) {
                (c1, seq![ScheduleEvent::Instant(Action::Braking)])
            } else {
                (c1, Seq::<ScheduleEvent>::empty())
            }
        },
        Event::KeySwitched(_level) => (c, Seq::<ScheduleEvent>::empty()),
    }
}

/// The whole SCAN decision for one event: per-event handling, then — when
/// the machine is idle or the event closed the door — the re-dispatch: pop
/// the next target and append the motor directive towards it, if it lies
/// away from the car.
pub open spec fn spec_scan(c: CtxView, event: Event, state: State) -> (CtxView, Seq<ScheduleEvent>) {
    let handled = spec_scan_event(c, event, state);
    let c1 = handled.0;
    let evs1 = handled.1;
    if state == State::Idle || event is DoorClosed {
        let dispatched = c1.spec_next_target();
        let c2 = dispatched.0;
        match dispatched.1 {
            Some(target) => if 2 * (target as int) > c2.pos2() {
                (c2, evs1.push(ScheduleEvent::Instant(Action::MovingUp)))
            } else if 2 * (target as int) < c2.pos2() {
                (c2, evs1.push(ScheduleEvent::Instant(Action::MovingDown)))
            } else {
                (c2, evs1)
            },
            None => (c2, evs1),
        }
    } else {
        (c1, evs1)
    }
}

/// A schedule of one action is fully legal when that action is.
proof fn lemma_all_legal_one(s: State, e0: ScheduleEvent)
    requires
        spec_legal(s, e0.action()),
    ensures
        spec_all_legal(s, seq![e0]),
{
    assert(seq![e0].drop_first() =~= Seq::<ScheduleEvent>::empty());
    assert(spec_all_legal(
        spec_apply(s, e0.action()).0,
        Seq::<ScheduleEvent>::empty(),
    ));
}

/// A schedule of two actions is fully legal when the first is legal and
/// the second is legal in the state the first leads to.
proof fn lemma_all_legal_two(s: State, e0: ScheduleEvent, e1: ScheduleEvent)
    requires
        spec_legal(s, e0.action()),
        spec_legal(
            spec_apply(s, e0.action()).0,
            e1.action(),
        ),
    ensures
        spec_all_legal(s, seq![e0, e1]),
{
    assert(seq![e0, e1].drop_first() =~= seq![e1]);
    lemma_all_legal_one(spec_apply(s, e0.action()).0, e1);
}

/// Law: the dispatcher and the state machine agree — every schedule the
/// SCAN strategy emits applies without a single rejection, so no directive
/// of a correctly operating controller is ever discarded by the legality
/// table. The one notice this needs is that a door-closed report only
/// arrives while the controller believes the door is closing (or the
/// machine is idle): a door closing on its own while the car moves is
/// hardware drift, and exactly the case the safety valve is for.
pub proof fn lemma_scan_schedule_all_legal(c: CtxView, event: Event, state: State)
    requires
        event is DoorClosed ==> state == State::DoorClosing || state == State::Idle,
    ensures
        spec_all_legal(state, spec_scan(c, event, state).1),
{
    let handled = spec_scan_event(c, event, state);
    let evs1 = handled.1;
    let evs = spec_scan(c, event, state).1;
    let redispatch = state == State::Idle || event is DoorClosed;

    // The state the per-event schedule leads to; the re-dispatch directive
    // is always applied in an idle machine.
    match event {
        Event::PanelButtonPressed(_floor) => {
            assert(evs1 =~= Seq::<ScheduleEvent>::empty());
        },
        Event::ElevatorUp(_floor) => {
            assert(evs1 =~= Seq::<ScheduleEvent>::empty());
        },
        Event::ElevatorDown(_floor) => {
            assert(evs1 =~= Seq::<ScheduleEvent>::empty());
        },
        Event::DoorOpened(floor) => {
            if c.active_target == Some(floor) && state == State::DoorOpening {
                lemma_all_legal_two(
                    state,
                    ScheduleEvent::Instant(Action::DoorOpened),
                    ScheduleEvent::WaitTime(DOOR_DWELL, Action::ClosingDoor),
                );
            }
        },
        Event::DoorClosed(_floor) => {
            if state == State::DoorClosing {
                if redispatch {
                    let dispatched = handled.0.spec_next_target();
                    match dispatched.1 {
                        Some(target) => {
                            let e0 = ScheduleEvent::Instant(Action::DoorClosed);
                            if 2 * (target as int) > dispatched.0.pos2() {
                                lemma_all_legal_two(
                                    state,
                                    e0,
                                    ScheduleEvent::Instant(Action::MovingUp),
                                );
                                assert(evs =~= seq![
                                    e0,
                                    ScheduleEvent::Instant(Action::MovingUp),
                                ]);
                            } else if 2 * (target as int) < dispatched.0.pos2() {
                                lemma_all_legal_two(
                                    state,
                                    e0,
                                    ScheduleEvent::Instant(Action::MovingDown),
                                );
                                assert(evs =~= seq![
                                    e0,
                                    ScheduleEvent::Instant(Action::MovingDown),
                                ]);
                            } else {
                                lemma_all_legal_one(state, e0);
                            }
                        },
                        None => {
                            lemma_all_legal_one(state, ScheduleEvent::Instant(Action::DoorClosed));
                        },
                    }
                }
            } else {
                assert(state == State::Idle);
                assert(evs1 =~= Seq::<ScheduleEvent>::empty());
            }
        },
        Event::ElevatorStopped(floor) => {
            if c.active_target == Some(floor) && state == State::Braking {
                lemma_all_legal_two(
                    state,
                    ScheduleEvent::Instant(Action::Stopped),
                    ScheduleEvent::Instant(Action::OpeningDoor),
                );
            }
        },
        Event::ElevatorApproaching(floor) => {
            let c1 = if c.min_floor <= floor <= c.max_floor {
                c.spec_approach(floor)
            } else {
                c
            };
            if c1.active_target == Some(floor) && (state == State::MovingUp || state
                == State::MovingDown) {
                lemma_all_legal_one(state, ScheduleEvent::Instant(Action::Braking));
            }
        },
        Event::KeySwitched(_level) => {
            assert(evs1 =~= Seq::<ScheduleEvent>::empty());
        },
    }

    // An empty per-event schedule leaves only the re-dispatch directive,
    // which fires only from an idle machine and starts a legal motion.
    if evs1.len() == 0 && redispatch {
        let dispatched = handled.0.spec_next_target();
        match dispatched.1 {
            Some(target) => {
                if 2 * (target as int) > dispatched.0.pos2() {
                    assert(evs =~= seq![ScheduleEvent::Instant(Action::MovingUp)]);
                    lemma_all_legal_one(state, ScheduleEvent::Instant(Action::MovingUp));
                } else if 2 * (target as int) < dispatched.0.pos2() {
                    assert(evs =~= seq![ScheduleEvent::Instant(Action::MovingDown)]);
                    lemma_all_legal_one(state, ScheduleEvent::Instant(Action::MovingDown));
                } else {
                    assert(evs =~= Seq::<ScheduleEvent>::empty());
                }
            },
            None => {
                assert(evs =~= Seq::<ScheduleEvent>::empty());
            },
        }
    }
}

/// A dispatch policy: one entry point mapping an inbound event and the
/// current transition state to the ordered schedule to apply, while
/// updating the scheduling context.
pub trait Strategy {
    /// The policy's meaning on the context model.
    spec fn handle_spec(&self, c: CtxView, event: Event, state: State) -> (
        CtxView,
        Seq<ScheduleEvent>,
    );

    /// Handles one event: updates the context and returns the ordered
    /// schedule, or nothing when the event calls for no action.
    fn handle(&self, ctx: &mut ElevatorContext, event: Event, state: State) -> (r: Option<
        Vec<ScheduleEvent>,
    >)
        requires
            old(ctx)@.wf(),
        ensures
            final(ctx)@ == self.handle_spec(old(ctx)@, event, state).0,
            final(ctx)@.wf(),
            (match r {
                Some(v) => v@ == self.handle_spec(old(ctx)@, event, state).1 && v@.len() > 0,
                None => self.handle_spec(old(ctx)@, event, state).1.len() == 0,
            }),
    ;
}

/// The SCAN ("elevator algorithm") dispatch policy.
#[derive(Clone, Copy, Debug)]
pub struct ScanStrategy {}

impl ScanStrategy {
    pub fn new() -> (r: ScanStrategy) {
        ScanStrategy {  }
    }
}

/// Whether the committed target is exactly this floor.
fn matches_target(t: Option<u8>, floor: u8) -> (r: bool)
    ensures
        r == (t == Some(floor)),
{
    match t {
        Some(x) => x == floor,
        None => false,
    }
}

impl Strategy for ScanStrategy {
    open spec fn handle_spec(&self, c: CtxView, event: Event, state: State) -> (
        CtxView,
        Seq<ScheduleEvent>,
    ) {
        spec_scan(c, event, state)
    }

    fn handle(&self, ctx: &mut ElevatorContext, event: Event, state: State) -> (r: Option<
        Vec<ScheduleEvent>,
    >) {
        let mut sched: Vec<ScheduleEvent> = Vec::new();
        match event {
            Event::PanelButtonPressed(floor) => {
                ctx.enqueue_request(floor);
            },
            Event::ElevatorUp(floor) => {
                ctx.enqueue_request(floor);
            },
            Event::ElevatorDown(floor) => {
                ctx.enqueue_request(floor);
            },
            Event::DoorOpened(floor) => {
                if matches_target(ctx.active_target, floor) && state == State::DoorOpening {
                    sched.push(ScheduleEvent::Instant(Action::DoorOpened));
                    sched.push(ScheduleEvent::WaitTime(DOOR_DWELL, Action::ClosingDoor));
                }
            },
            Event::DoorClosed(_floor) => {
                if state == State::DoorClosing {
                    sched.push(ScheduleEvent::Instant(Action::DoorClosed));
                }
            },
            Event::ElevatorStopped(floor) => {
                if matches_target(ctx.active_target, floor) && state == State::Braking {
                    ctx.current_location = Location::AtFloor(floor);
                    sched.push(ScheduleEvent::Instant(Action::Stopped));
                    sched.push(ScheduleEvent::Instant(Action::OpeningDoor));
                }
            },
            Event::ElevatorApproaching(floor) => {
                if ctx.min_floor <= floor && floor <= ctx.max_floor {
                    ctx.approach_floor(floor);
                }
                if matches_target(ctx.active_target, floor) && (state == State::MovingUp || state
                    == State::MovingDown) {
                    sched.push(ScheduleEvent::Instant(Action::Braking));
                }
            },
            Event::KeySwitched(_level) => {},
        }
        proof {
            assert(ctx@ == spec_scan_event(old(ctx)@, event, state).0);
            assert(sched@ =~= spec_scan_event(old(ctx)@, event, state).1);
            assert(ctx@.wf());
        }
        if state == State::Idle || matches!(event, Event::DoorClosed(_)) {
            if let Some(target) = ctx.next_target() {
                let tp = 2 * (target as u16);
                let cp = ctx.current_location.position2();
                if tp > cp {
                    sched.push(ScheduleEvent::Instant(Action::MovingUp));
                } else if tp < cp {
                    sched.push(ScheduleEvent::Instant(Action::MovingDown));
                }
            }
        }
        proof {
            assert(ctx@ == spec_scan(old(ctx)@, event, state).0);
            assert(sched@ =~= spec_scan(old(ctx)@, event, state).1);
        }
        if sched.len() == 0 {
            None
        } else {
            Some(sched)
        }
    }
}

} // verus!
