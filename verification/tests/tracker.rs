use race::direction::Direction;
use race::simulator::{CarCoord, CarData, SimEvent};
use race::tracker::{compute_not_finishing, Tracker};

fn car(id: usize, x: isize, y: isize, dir: Direction) -> CarData {
    CarData {
        id,
        pos: CarCoord(x, y),
        dir,
    }
}

#[test]
fn new_tracker_has_the_empty_round() {
    let tracker = Tracker::new(3);
    assert_eq!(tracker.rounds_available(), 1);
    assert_eq!(tracker.get_cars(), &vec![Vec::<CarData>::new()]);
    assert!(tracker.get_finishes().is_empty());
    assert_eq!(tracker.get_crashes(), &vec![false, false, false]);
    assert!(!tracker.is_loop_detected());
}

#[test]
fn events_are_recorded() {
    let mut tracker = Tracker::new(3);
    tracker.process_event(SimEvent::Round(vec![car(0, 0, 1, Direction::Up)]));
    tracker.process_event(SimEvent::Finished(2));
    tracker.process_event(SimEvent::Crashed(1));
    tracker.process_event(SimEvent::Finished(0));
    assert_eq!(tracker.rounds_available(), 2);
    assert_eq!(tracker.get_cars()[1], vec![car(0, 0, 1, Direction::Up)]);
    assert_eq!(tracker.get_finishes(), &vec![2, 0]);
    assert_eq!(tracker.get_crashes(), &vec![false, true, false]);
    assert!(!tracker.is_loop_detected());
}

#[test]
fn final_crashes_are_the_cars_that_did_not_finish() {
    assert_eq!(
        compute_not_finishing(4, &vec![2, 0]),
        vec![false, true, false, true]
    );
    assert_eq!(compute_not_finishing(0, &vec![]), Vec::<bool>::new());
    assert_eq!(compute_not_finishing(2, &vec![1, 1]), vec![true, false]);
    let mut tracker = Tracker::new(4);
    tracker.process_event(SimEvent::Finished(3));
    tracker.process_event(SimEvent::Crashed(3));
    tracker.compute_final_crashes(4);
    assert_eq!(tracker.get_crashes(), &vec![true, true, true, false]);
}

#[test]
fn a_state_that_comes_again_in_a_round_of_the_same_parity_is_a_loop() {
    let a = vec![car(0, 0, 1, Direction::Up)];
    let b = vec![car(0, 0, -1, Direction::Up)];
    let mut tracker = Tracker::new(1);
    tracker.add_round(a.clone()); // round 1
    tracker.add_round(b.clone()); // round 2
    assert!(!tracker.is_loop_detected());
    tracker.add_round(a.clone()); // round 3: as round 1
    assert!(tracker.is_loop_detected());
    tracker.add_round(vec![]);
    assert!(tracker.is_loop_detected());
}

#[test]
fn a_state_that_comes_again_in_a_round_of_the_other_parity_is_no_loop() {
    let a = vec![car(0, 0, 1, Direction::Up)];
    let mut tracker = Tracker::new(1);
    tracker.add_round(a.clone()); // round 1
    tracker.add_round(a.clone()); // round 2: as round 1, but the lights differ
    assert!(!tracker.is_loop_detected());
    tracker.add_round(a.clone()); // round 3: as round 1
    assert!(tracker.is_loop_detected());
}

#[test]
fn an_empty_course_in_an_even_round_repeats_the_start() {
    let mut tracker = Tracker::new(0);
    tracker.add_round(vec![]); // round 1
    assert!(!tracker.is_loop_detected());
    tracker.add_round(vec![]); // round 2: as round 0
    assert!(tracker.is_loop_detected());
}

#[test]
fn the_order_of_the_cars_is_part_of_the_state() {
    let a = car(0, 0, 1, Direction::Up);
    let b = car(1, 4, 1, Direction::Down);
    let mut tracker = Tracker::new(2);
    tracker.add_round(vec![a, b]); // round 1
    tracker.add_round(vec![a]); // round 2
    tracker.add_round(vec![b, a]); // round 3: the cars of round 1 in another order
    assert!(!tracker.is_loop_detected());
    tracker.add_round(vec![b]); // round 4
    tracker.add_round(vec![a, b]); // round 5: as round 1
    assert!(tracker.is_loop_detected());
}

#[test]
fn many_rounds_keep_the_index_right() {
    // enough rounds for the hash table to grow several times
    let mut tracker = Tracker::new(1);
    for i in 1..500isize {
        tracker.add_round(vec![car(0, 0, 2 * i + 1, Direction::Down)]);
        assert!(!tracker.is_loop_detected());
    }
    assert_eq!(tracker.rounds_available(), 500);
    // round 500 repeats round 250
    tracker.add_round(vec![car(0, 0, 501, Direction::Down)]);
    assert!(tracker.is_loop_detected());
}

#[test]
fn a_repeat_under_the_same_hash_value_is_detected() {
    let state = vec![car(0, 1, 2, Direction::Up), car(1, 3, 2, Direction::Right)];
    let mut tracker = Tracker::new(2);
    tracker.add_round_hashed(vec![car(0, 1, 0, Direction::Up)], 5);
    tracker.add_round_hashed(state.clone(), 17);
    assert!(!tracker.is_loop_detected());
    tracker.add_round_hashed(vec![car(0, 1, 4, Direction::Up)], 7);
    assert!(!tracker.is_loop_detected());
    tracker.add_round_hashed(state.clone(), 17);
    assert!(tracker.is_loop_detected());
    assert_eq!(tracker.rounds_available(), 5);
    assert_eq!(tracker.get_cars()[4], state);
    tracker.process_event(SimEvent::Finished(1));
    tracker.add_round_hashed(vec![car(0, 1, 6, Direction::Up)], 9);
    assert!(tracker.is_loop_detected());
}

#[test]
fn the_same_hash_value_alone_is_no_repeat() {
    let mut tracker = Tracker::new(2);
    tracker.add_round_hashed(vec![car(0, 1, 2, Direction::Up)], 17);
    tracker.add_round_hashed(vec![car(0, 1, 4, Direction::Up)], 17);
    tracker.add_round_hashed(vec![car(1, 1, 2, Direction::Up)], 17);
    // the state of round 1 again, in a round of the other parity
    tracker.add_round_hashed(vec![car(0, 1, 2, Direction::Up)], 17);
    assert!(!tracker.is_loop_detected());
    tracker.add_round_hashed(vec![car(0, 1, 2, Direction::Up)], 17);
    assert!(tracker.is_loop_detected());
}
