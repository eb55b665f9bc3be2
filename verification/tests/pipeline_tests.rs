use lify_control::codec::{Command, DecodeError, Event};
use lify_control::context::{ElevatorContext, Location};
use lify_control::pipeline::{pipeline_step, run_schedule, SchedulerEventLayer};
use lify_control::scan::{ScanStrategy, Strategy};
use lify_control::sched_events::{Action, ScheduleEvent, DOOR_DWELL};
use lify_control::transition::State;

#[test]
fn braking_while_idle_is_rejected() {
    // Illegal-action rejection: no state change, no command.
    let (next, cmd) = State::Idle.apply(Action::Braking);
    assert_eq!(next, State::Idle);
    assert_eq!(cmd, None);
}

#[test]
fn legal_transition_table() {
    assert_eq!(State::Idle.apply(Action::MovingUp), (State::MovingUp, Some(Command::MU)));
    assert_eq!(State::Idle.apply(Action::MovingDown), (State::MovingDown, Some(Command::MD)));
    assert_eq!(State::Idle.apply(Action::OpeningDoor), (State::DoorOpening, Some(Command::DO)));
    assert_eq!(State::MovingUp.apply(Action::Braking), (State::Braking, Some(Command::S)));
    assert_eq!(State::MovingDown.apply(Action::Braking), (State::Braking, Some(Command::S)));
    assert_eq!(State::Braking.apply(Action::Stopped), (State::Idle, None));
    assert_eq!(State::DoorOpening.apply(Action::DoorOpened), (State::DoorOpened, None));
    assert_eq!(State::DoorOpened.apply(Action::ClosingDoor), (State::DoorClosing, Some(Command::DC)));
    assert_eq!(State::DoorClosing.apply(Action::DoorClosed), (State::Idle, None));
}

#[test]
fn illegal_actions_are_ignored() {
    assert_eq!(State::MovingUp.apply(Action::MovingUp), (State::MovingUp, None));
    assert_eq!(State::Braking.apply(Action::Braking), (State::Braking, None));
    assert_eq!(State::DoorOpened.apply(Action::OpeningDoor), (State::DoorOpened, None));
    assert_eq!(State::PreStart.apply(Action::MovingUp), (State::PreStart, None));
    assert_eq!(State::Idle.apply(Action::Stopped), (State::Idle, None));
    assert_eq!(State::Idle.apply(Action::DoorClosed), (State::Idle, None));
}

#[test]
fn init_sends_reset_once() {
    let (state, cmd) = State::PreStart.init();
    assert_eq!(state, State::Idle);
    assert_eq!(cmd, Command::R);
}

#[test]
fn scenario_door_close_cycle() {
    // State DoorOpened receives ClosingDoor: emits DC, moves to
    // DoorClosing; the DoorClosed event in state DoorClosing then yields
    // the DoorClosed action, which folds the machine back to Idle.
    let (state, cmd) = State::DoorOpened.apply(Action::ClosingDoor);
    assert_eq!(state, State::DoorClosing);
    assert_eq!(cmd, Some(Command::DC));

    let mut ctx = ElevatorContext::new(1, 5);
    ctx.current_location = Location::AtFloor(3);
    ctx.active_target = Some(3);
    let strategy = ScanStrategy::new();
    let sched = strategy.handle(&mut ctx, Event::DoorClosed(3), state);
    assert_eq!(sched, Some(vec![ScheduleEvent::Instant(Action::DoorClosed)]));

    let (state, cmd) = state.apply(Action::DoorClosed);
    assert_eq!(state, State::Idle);
    assert_eq!(cmd, None);
}

#[test]
fn scenario_stale_approach_is_ignored() {
    // ElevatorApproaching(3) while the active target is 5: no braking is
    // scheduled and the transition state is left alone.
    let mut ctx = ElevatorContext::new(1, 5);
    ctx.active_target = Some(5);
    let strategy = ScanStrategy::new();
    let sched = strategy.handle(&mut ctx, Event::ElevatorApproaching(3), State::MovingUp);
    assert!(sched.is_none());
    // The approach notice still places the car where the hardware says.
    assert_eq!(ctx.current_location, Location::BetweenFloors(2, 3));
    assert_eq!(ctx.active_target, Some(5));
}

#[test]
fn scenario_door_open_schedules_delayed_close() {
    let mut ctx = ElevatorContext::new(1, 5);
    ctx.current_location = Location::AtFloor(4);
    ctx.active_target = Some(4);
    let strategy = ScanStrategy::new();
    let sched = strategy.handle(&mut ctx, Event::DoorOpened(4), State::DoorOpening);
    assert_eq!(
        sched,
        Some(vec![
            ScheduleEvent::Instant(Action::DoorOpened),
            ScheduleEvent::WaitTime(DOOR_DWELL, Action::ClosingDoor),
        ])
    );
}

#[test]
fn decode_failure_changes_nothing_twice() {
    // Delivering the same decode-failing buffer twice produces two
    // independent errors and no state change either time.
    let strategy = ScanStrategy::new();
    let mut ctx = ElevatorContext::new(1, 5);
    ctx.enqueue_request(4);
    let bad = b"Zq";
    for _ in 0..2 {
        let (state, cmds, err) = pipeline_step(&strategy, &mut ctx, State::MovingUp, bad);
        assert_eq!(state, State::MovingUp);
        assert!(cmds.is_empty());
        assert_eq!(err, Some(DecodeError::BadArgument));
        assert_eq!(ctx.current_location, Location::AtFloor(1));
        assert_eq!(ctx.up_queue, vec![4]);
        assert!(ctx.down_queue.is_empty());
        assert_eq!(ctx.active_target, None);
        assert!(ctx.direction_up);
    }
    let unknown = b"Z9";
    let (_state, cmds, err) = pipeline_step(&strategy, &mut ctx, State::MovingUp, unknown);
    assert!(cmds.is_empty());
    assert_eq!(err, Some(DecodeError::UnknownOpcode));
    let short = b"P";
    let (_state, cmds, err) = pipeline_step(&strategy, &mut ctx, State::MovingUp, short);
    assert!(cmds.is_empty());
    assert_eq!(err, Some(DecodeError::TooShort));
}

#[test]
fn run_schedule_drains_in_order() {
    let sched = vec![
        ScheduleEvent::Instant(Action::Stopped),
        ScheduleEvent::Instant(Action::OpeningDoor),
    ];
    let (state, cmds) = run_schedule(State::Braking, &sched);
    assert_eq!(state, State::DoorOpening);
    assert_eq!(cmds, vec![Command::DO]);
}

#[test]
fn full_service_cycle_over_the_wire() {
    // One complete serviced request, byte buffers in, command tokens out.
    let strategy = ScanStrategy::new();
    let mut ctx = ElevatorContext::new(1, 5);
    let (state, reset) = State::PreStart.init();
    assert_eq!(reset, Command::R);

    // A panel press for floor 3 dispatches the car upward.
    let (state, cmds, err) = pipeline_step(&strategy, &mut ctx, state, b"P3");
    assert_eq!(err, None);
    assert_eq!(cmds, vec![Command::MU]);
    assert_eq!(state, State::MovingUp);
    assert_eq!(ctx.active_target, Some(3));

    // Approaching the target floor brakes.
    let (state, cmds, err) = pipeline_step(&strategy, &mut ctx, state, b"A3");
    assert_eq!(err, None);
    assert_eq!(cmds, vec![Command::S]);
    assert_eq!(state, State::Braking);

    // Stopping at the target opens the door.
    let (state, cmds, err) = pipeline_step(&strategy, &mut ctx, state, b"S3");
    assert_eq!(err, None);
    assert_eq!(cmds, vec![Command::DO]);
    assert_eq!(state, State::DoorOpening);
    assert_eq!(ctx.current_location, Location::AtFloor(3));

    // The opened door schedules the delayed auto-close.
    let (state, cmds, err) = pipeline_step(&strategy, &mut ctx, state, b"O3");
    assert_eq!(err, None);
    assert_eq!(cmds, vec![Command::DC]);
    assert_eq!(state, State::DoorClosing);

    // The closed door folds back to idle; nothing is pending.
    let (state, cmds, err) = pipeline_step(&strategy, &mut ctx, state, b"C3");
    assert_eq!(err, None);
    assert!(cmds.is_empty());
    assert_eq!(state, State::Idle);
    assert_eq!(ctx.active_target, None);
}

#[test]
fn scheduler_layer_wraps_strategy() {
    let layer = SchedulerEventLayer::new(ScanStrategy::new());
    let mut ctx = ElevatorContext::new(1, 5);
    let sched = layer.strategy.handle(&mut ctx, Event::PanelButtonPressed(2), State::MovingUp);
    assert!(sched.is_none());
    assert_eq!(ctx.up_queue, vec![2]);
}
