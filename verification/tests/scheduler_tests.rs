use lify_control::codec::Event;
use lify_control::context::{ElevatorContext, Location};
use lify_control::elevator::ElevatorData;
use lify_control::scan::{ScanStrategy, Strategy};
use lify_control::transition::State;

#[test]
fn scenario_panel_buttons_then_scan_order() {
    // Context at floor 1, direction up; enqueue floor 4 and floor 2 via
    // panel-button events (the car is moving, so no re-dispatch happens);
    // sequential dispatch decisions return 2 then 4.
    let mut ctx = ElevatorContext::new(1, 5);
    let strategy = ScanStrategy::new();
    assert_eq!(ctx.current_location, Location::AtFloor(1));
    assert!(ctx.direction_up);
    let r1 = strategy.handle(&mut ctx, Event::PanelButtonPressed(4), State::MovingUp);
    assert!(r1.is_none());
    let r2 = strategy.handle(&mut ctx, Event::PanelButtonPressed(2), State::MovingUp);
    assert!(r2.is_none());
    assert_eq!(ctx.up_queue, vec![2, 4]);
    assert_eq!(ctx.next_target(), Some(2));
    assert_eq!(ctx.next_target(), Some(4));
    assert_eq!(ctx.next_target(), None);
}

#[test]
fn next_target_on_empty_queues_flips_once() {
    let mut ctx = ElevatorContext::new(1, 5);
    assert!(ctx.direction_up);
    assert_eq!(ctx.next_target(), None);
    assert!(!ctx.direction_up);
    assert_eq!(ctx.active_target, None);
    assert_eq!(ctx.next_target(), None);
    assert!(ctx.direction_up);
    assert!(ctx.up_queue.is_empty());
    assert!(ctx.down_queue.is_empty());
}

#[test]
fn enqueue_deduplicates() {
    let mut ctx = ElevatorContext::new(1, 5);
    ctx.enqueue_request(3);
    ctx.enqueue_request(3);
    assert_eq!(ctx.up_queue, vec![3]);
    assert_eq!(ctx.next_target(), Some(3));
    assert_eq!(ctx.next_target(), None);
}

#[test]
fn enqueue_drops_current_floor() {
    let mut ctx = ElevatorContext::new(1, 5);
    ctx.enqueue_request(1);
    assert!(ctx.up_queue.is_empty());
    assert!(ctx.down_queue.is_empty());
}

#[test]
fn scan_serves_sweep_then_reverses() {
    let mut ctx = ElevatorContext::new(1, 5);
    ctx.current_location = Location::AtFloor(3);
    ctx.enqueue_request(5);
    ctx.enqueue_request(1);
    ctx.enqueue_request(4);
    ctx.enqueue_request(2);
    assert_eq!(ctx.up_queue, vec![4, 5]);
    assert_eq!(ctx.down_queue, vec![2, 1]);
    // Ascending while sweeping up, then descending after the flip.
    assert_eq!(ctx.next_target(), Some(4));
    assert_eq!(ctx.next_target(), Some(5));
    assert_eq!(ctx.next_target(), Some(2));
    assert!(!ctx.direction_up);
    assert_eq!(ctx.next_target(), Some(1));
    assert_eq!(ctx.next_target(), None);
}

#[test]
fn transit_floor_moves_and_flips_at_bounds() {
    let mut ctx = ElevatorContext::new(1, 5);
    ctx.current_location = Location::AtFloor(4);
    ctx.transit_floor();
    assert_eq!(ctx.current_location, Location::BetweenFloors(4, 5));
    ctx.transit_floor();
    assert_eq!(ctx.current_location, Location::AtFloor(5));
    // Reaching the top flips the sweep.
    assert!(!ctx.direction_up);
    ctx.transit_floor();
    assert_eq!(ctx.current_location, Location::BetweenFloors(4, 5));
    ctx.transit_floor();
    assert_eq!(ctx.current_location, Location::AtFloor(4));
    assert!(!ctx.direction_up);
}

#[test]
fn transit_floor_flips_at_bottom() {
    let mut ctx = ElevatorContext::new(1, 5);
    ctx.current_location = Location::BetweenFloors(1, 2);
    ctx.direction_up = false;
    ctx.transit_floor();
    assert_eq!(ctx.current_location, Location::AtFloor(1));
    assert!(ctx.direction_up);
}

#[test]
fn approach_floor_sets_between_floors() {
    let mut ctx = ElevatorContext::new(1, 5);
    ctx.approach_floor(3);
    assert_eq!(ctx.current_location, Location::BetweenFloors(2, 3));
    ctx.direction_up = false;
    ctx.approach_floor(2);
    assert_eq!(ctx.current_location, Location::BetweenFloors(2, 3));
}

#[test]
fn elevator_data_enqueue_splits_by_floor() {
    let mut data = ElevatorData::default();
    data.current_floor = 3;
    data.direction_up = true;
    data.enqueue_request(5);
    data.enqueue_request(1);
    data.enqueue_request(3);
    assert_eq!(data.up_queue, vec![5]);
    assert_eq!(data.down_queue, vec![1]);
    assert_eq!(data.next_target(), Some(5));
    assert_eq!(data.active_target, Some(5));
    assert_eq!(data.next_target(), Some(1));
    assert!(!data.direction_up);
    assert_eq!(data.next_target(), None);
    assert_eq!(data.active_target, None);
}

#[test]
fn elevator_data_deduplicates() {
    let mut data = ElevatorData::default();
    data.current_floor = 1;
    data.direction_up = true;
    data.enqueue_request(3);
    data.enqueue_request(3);
    assert_eq!(data.up_queue, vec![3]);
    assert_eq!(data.next_target(), Some(3));
    assert_eq!(data.next_target(), None);
}
