use race::course::{Course, TileCoord};
use race::direction::{DihedralElement, Direction};
use race::level::{BannedTiles, LevelData};
use race::simulator::{CarCoord, CarData, SimEvent, Simulator, SpawnPolicy, MAX_ROUNDS};
use race::tile::{Tile, TileType};
use race::tracker::Tracker;

fn tile(tile_type: TileType, transform: DihedralElement) -> Tile {
    Tile {
        tile_type,
        transform,
        offset: 0,
    }
}

fn course_of(tiles: &[(isize, isize, TileType, DihedralElement)]) -> Course {
    let mut course = Course::new();
    for &(x, y, tile_type, transform) in tiles {
        course.insert_mut(TileCoord(x, y), tile(tile_type, transform));
    }
    course
}

fn car(id: usize, x: isize, y: isize, dir: Direction) -> CarData {
    CarData {
        id,
        pos: CarCoord(x, y),
        dir,
    }
}

/// A ring of six tiles that is run through against the clock, with a merge on its lower
/// side that is fed from a finish line below it.
fn ring_with_feeder() -> Course {
    course_of(&[
        (0, 0, TileType::Turn, DihedralElement::Rot270),
        (1, 0, TileType::Straight, DihedralElement::Rot270),
        (2, 0, TileType::Turn, DihedralElement::Id),
        (2, 1, TileType::Turn, DihedralElement::Rot90),
        (1, 1, TileType::Merge, DihedralElement::Rot90),
        (0, 1, TileType::Turn, DihedralElement::Rot180),
        (1, 2, TileType::Finish, DihedralElement::Id),
    ])
}

/// A ring of six tiles, one of which is the finish line.
fn ring_through_finish() -> Course {
    course_of(&[
        (0, 0, TileType::Turn, DihedralElement::Rot270),
        (1, 0, TileType::Straight, DihedralElement::Rot270),
        (2, 0, TileType::Turn, DihedralElement::Id),
        (2, 1, TileType::Turn, DihedralElement::Rot90),
        (1, 1, TileType::Finish, DihedralElement::Rot90),
        (0, 1, TileType::Turn, DihedralElement::Rot180),
    ])
}

fn run_to_end(sim: &mut Simulator, tracker: &mut Tracker) {
    while !(sim.is_finished() || tracker.is_loop_detected()) {
        sim.run_round();
        for ev in sim.events() {
            tracker.process_event(ev);
        }
    }
}

#[test]
fn new_simulator_is_empty() {
    let sim = Simulator::new(ring_with_feeder(), 3);
    assert_eq!(sim.get_round(), 0);
    assert!(sim.get_cars().is_empty());
    assert!(!sim.is_finished());
    assert_eq!(sim.get_course().size(), 7);
    assert_eq!(
        sim.get_starts(),
        &vec![(CarCoord(2, 3), Direction::Up)]
    );
    let none = Simulator::new(ring_with_feeder(), 0);
    assert!(none.is_finished());
}

#[test]
fn car_starts_at_the_exit_of_the_finish_line() {
    let mut sim = Simulator::new(ring_with_feeder(), 1);
    sim.run_round();
    assert_eq!(sim.get_round(), 1);
    assert_eq!(sim.get_cars(), &vec![car(0, 2, 3, Direction::Up)]);
    let events = sim.events();
    assert_eq!(events.len(), 1);
    match &events[0] {
        SimEvent::Round(cars) => assert_eq!(cars, &vec![car(0, 2, 3, Direction::Up)]),
        _ => panic!("expected a round"),
    }
    assert!(sim.events().is_empty());
}

#[test]
fn car_drives_round_the_ring() {
    let mut sim = Simulator::new(ring_with_feeder(), 1);
    let expected = [
        car(0, 2, 3, Direction::Up),
        // through the merge, which is left to the right
        car(0, 3, 2, Direction::Right),
        car(0, 4, 1, Direction::Up),
        car(0, 3, 0, Direction::Left),
        car(0, 1, 0, Direction::Left),
        car(0, 0, 1, Direction::Down),
        car(0, 1, 2, Direction::Right),
        car(0, 3, 2, Direction::Right),
    ];
    for e in expected {
        sim.run_round();
        assert_eq!(sim.get_cars(), &vec![e]);
    }
}

#[test]
fn endless_ring_runs_to_the_cap_and_is_detected_early() {
    let mut sim = Simulator::new(ring_with_feeder(), 1);
    let mut tracker = Tracker::new(1);
    let mut detected_at = None;
    while !sim.is_finished() {
        sim.run_round();
        for ev in sim.events() {
            tracker.process_event(ev);
        }
        if detected_at.is_none() && tracker.is_loop_detected() {
            detected_at = Some(sim.get_round());
        }
    }
    assert_eq!(sim.get_round(), MAX_ROUNDS);
    assert_eq!(sim.get_round(), 1000);
    assert!(sim.is_finished());
    assert!(tracker.is_loop_detected());
    // The car is on the ring from round 2 on, and the ring has six tiles: round 8 is the
    // first that has the state of an earlier round, round 2.
    assert_eq!(detected_at, Some(8));
    assert!(tracker.get_finishes().is_empty());
    assert_eq!(tracker.rounds_available(), 1001);
    tracker.compute_final_crashes(1);
    assert_eq!(tracker.get_crashes(), &vec![true]);
}

#[test]
fn car_that_comes_back_to_the_finish_line_finishes() {
    let mut sim = Simulator::new(ring_through_finish(), 1);
    let mut tracker = Tracker::new(1);
    run_to_end(&mut sim, &mut tracker);
    assert!(sim.is_finished());
    assert!(!tracker.is_loop_detected());
    assert_eq!(tracker.get_finishes(), &vec![0]);
    assert_eq!(tracker.get_crashes(), &vec![false]);
    // one round to start, five tiles to cross, and the car faces the finish line
    assert_eq!(sim.get_round(), 6);
    assert_eq!(tracker.rounds_available(), 7);
    let last = tracker.get_cars().last().unwrap();
    assert_eq!(last, &vec![car(0, 1, 2, Direction::Right)]);
    tracker.compute_final_crashes(1);
    assert_eq!(tracker.get_crashes(), &vec![false]);
}

#[test]
fn cars_start_one_per_round_until_all_have_started() {
    let mut sim = Simulator::new(ring_through_finish(), 3);
    let mut tracker = Tracker::new(3);
    sim.run_round();
    assert_eq!(sim.get_cars().len(), 1);
    sim.run_round();
    assert_eq!(
        sim.get_cars(),
        &vec![car(0, 4, 1, Direction::Up), car(1, 3, 2, Direction::Right)]
    );
    sim.run_round();
    assert_eq!(sim.get_cars().len(), 3);
    sim.run_round();
    assert_eq!(sim.get_cars().len(), 3);
    for ev in sim.events() {
        tracker.process_event(ev);
    }
    run_to_end(&mut sim, &mut tracker);
    assert_eq!(tracker.get_finishes(), &vec![0, 1, 2]);
    assert_eq!(sim.get_round(), 8);
}

#[test]
fn car_crashes_where_the_road_ends() {
    let course = course_of(&[
        (0, 0, TileType::Finish, DihedralElement::Id),
        (0, -1, TileType::Straight, DihedralElement::Id),
    ]);
    let mut sim = Simulator::new(course, 1);
    sim.run_round();
    assert_eq!(sim.get_cars(), &vec![car(0, 0, -1, Direction::Up)]);
    sim.run_round();
    assert!(sim.get_cars().is_empty());
    assert!(sim.is_finished());
    let events = sim.events();
    assert_eq!(events.len(), 3);
    match &events[1] {
        SimEvent::Round(cars) => assert_eq!(cars, &vec![car(0, 0, -3, Direction::Up)]),
        _ => panic!("expected a round"),
    }
    assert!(matches!(events[2], SimEvent::Crashed(0)));
}

#[test]
fn car_crashes_into_the_side_of_a_tile() {
    let course = course_of(&[
        (0, 0, TileType::Finish, DihedralElement::Id),
        (0, -1, TileType::Straight, DihedralElement::Rot90),
    ]);
    let mut sim = Simulator::new(course, 1);
    sim.run_round();
    assert!(sim.get_cars().is_empty());
    let events = sim.events();
    assert_eq!(events.len(), 2);
    assert!(matches!(events[1], SimEvent::Crashed(0)));
}

/// A junction at (1, 1) in canonical position, entered from a finish line below and from
/// one to its right, with a straight above it and one to its left.
fn junction(tile_type: TileType, offset: u8) -> Course {
    let mut course = course_of(&[
        (1, 2, TileType::Finish, DihedralElement::Id),
        (2, 1, TileType::Finish, DihedralElement::Rot270),
        (1, 0, TileType::Straight, DihedralElement::Id),
        (0, 1, TileType::Straight, DihedralElement::Rot270),
    ]);
    course.insert_mut(
        TileCoord(1, 1),
        Tile {
            tile_type,
            transform: DihedralElement::Id,
            offset,
        },
    );
    course
}

fn positions(sim: &Simulator) -> Vec<(CarCoord, Direction)> {
    let mut v: Vec<(CarCoord, Direction)> = sim.get_cars().iter().map(|c| (c.pos, c.dir)).collect();
    v.sort_by_key(|(p, _)| (p.0, p.1));
    v
}

#[test]
fn merge_lets_the_car_from_below_go_first() {
    let mut sim = Simulator::new(junction(TileType::Merge, 0), 2);
    sim.run_round();
    assert_eq!(
        positions(&sim),
        vec![
            (CarCoord(2, 3), Direction::Up),
            (CarCoord(3, 2), Direction::Left)
        ]
    );
    // The car that drives up has the right of way; the one from the right waits.
    sim.run_round();
    assert_eq!(
        positions(&sim),
        vec![
            (CarCoord(2, 1), Direction::Up),
            (CarCoord(3, 2), Direction::Left)
        ]
    );
    // Now the way is free, and the merge is left upwards.
    sim.run_round();
    assert_eq!(positions(&sim), vec![(CarCoord(2, 1), Direction::Up)]);
}

#[test]
fn yield_sign_lets_the_car_from_the_right_go_first() {
    let mut sim = Simulator::new(junction(TileType::YieldIntersection, 0), 2);
    sim.run_round();
    sim.run_round();
    assert_eq!(
        positions(&sim),
        vec![
            (CarCoord(1, 2), Direction::Left),
            (CarCoord(2, 3), Direction::Up)
        ]
    );
    sim.run_round();
    assert_eq!(positions(&sim), vec![(CarCoord(2, 1), Direction::Up)]);
}

#[test]
fn lights_open_the_two_entrances_in_turn() {
    // In round 1 the cars start. In round 2, an even round counted from 0, with offset 0
    // the lights are in their first phase, which is open for the canonical Left.
    let mut sim = Simulator::new(junction(TileType::LightIntersection, 0), 2);
    sim.run_round();
    sim.run_round();
    assert_eq!(
        positions(&sim),
        vec![
            (CarCoord(2, 1), Direction::Up),
            (CarCoord(3, 2), Direction::Left)
        ]
    );
    sim.run_round();
    assert_eq!(positions(&sim), vec![(CarCoord(1, 2), Direction::Left)]);

    // With offset 1 the phases are swapped.
    let mut sim = Simulator::new(junction(TileType::LightIntersection, 1), 2);
    sim.run_round();
    sim.run_round();
    assert_eq!(
        positions(&sim),
        vec![
            (CarCoord(1, 2), Direction::Left),
            (CarCoord(2, 3), Direction::Up)
        ]
    );
}

#[test]
fn turns_with_lights_send_cars_left_and_right_in_turn() {
    let course = course_of(&[
        (1, 2, TileType::Finish, DihedralElement::Id),
        (1, 1, TileType::LightTurns, DihedralElement::Id),
        (0, 1, TileType::Straight, DihedralElement::Rot270),
        (2, 1, TileType::Straight, DihedralElement::Rot90),
    ]);
    let mut sim = Simulator::new(course, 2);
    sim.run_round();
    // round 1 is odd: second phase, to the right
    sim.run_round();
    assert_eq!(
        positions(&sim),
        vec![
            (CarCoord(2, 3), Direction::Up),
            (CarCoord(3, 2), Direction::Right)
        ]
    );
    // round 2 is even: first phase, to the left
    sim.run_round();
    assert_eq!(positions(&sim), vec![(CarCoord(1, 2), Direction::Left)]);
}

#[test]
fn fork_with_lights_sends_cars_on_and_left_in_turn() {
    let course = course_of(&[
        (1, 2, TileType::Finish, DihedralElement::Id),
        (1, 1, TileType::LightForwardTurn, DihedralElement::Id),
        (0, 1, TileType::Straight, DihedralElement::Rot270),
        (1, 0, TileType::Straight, DihedralElement::Id),
    ]);
    let mut sim = Simulator::new(course, 2);
    sim.run_round();
    sim.run_round();
    assert_eq!(
        positions(&sim),
        vec![
            (CarCoord(2, 1), Direction::Up),
            (CarCoord(2, 3), Direction::Up)
        ]
    );
    sim.run_round();
    assert_eq!(positions(&sim), vec![(CarCoord(1, 2), Direction::Left)]);
}

#[test]
fn cars_in_a_line_are_resolved_from_the_front() {
    // Three cars in a row on a straight road: the one in front is the last to have started
    // ... and the first to be resolved in each round.
    let course = course_of(&[
        (0, 0, TileType::Finish, DihedralElement::Id),
        (0, -1, TileType::Straight, DihedralElement::Id),
        (0, -2, TileType::Straight, DihedralElement::Id),
        (0, -3, TileType::Straight, DihedralElement::Id),
        (0, -4, TileType::Straight, DihedralElement::Id),
    ]);
    let mut sim = Simulator::new(course, 3);
    sim.run_round();
    sim.run_round();
    sim.run_round();
    assert_eq!(
        sim.get_cars(),
        &vec![
            car(0, 0, -5, Direction::Up),
            car(1, 0, -3, Direction::Up),
            car(2, 0, -1, Direction::Up)
        ]
    );
    sim.run_round();
    assert_eq!(
        sim.get_cars(),
        &vec![
            car(0, 0, -7, Direction::Up),
            car(1, 0, -5, Direction::Up),
            car(2, 0, -3, Direction::Up)
        ]
    );
}

#[test]
fn a_car_behind_a_waiting_car_waits_too() {
    // A merge whose side entrance is fed through a straight: the car on the straight is
    // behind the car that waits at the merge.
    let course = course_of(&[
        (1, 2, TileType::Finish, DihedralElement::Id),
        (1, 1, TileType::Merge, DihedralElement::Id),
        (1, 0, TileType::Straight, DihedralElement::Id),
        (2, 1, TileType::Straight, DihedralElement::Rot270),
        (3, 1, TileType::Finish, DihedralElement::Rot270),
    ]);
    let mut sim = Simulator::new(course, 6);
    // The two finish lines start cars in every round. The side road is a tile longer, so
    // its first car reaches the merge in round 3, when the third car from below enters.
    sim.run_round();
    sim.run_round();
    sim.run_round();
    let at_merge: Vec<&CarData> = sim
        .get_cars()
        .iter()
        .filter(|c| c.pos == CarCoord(3, 2))
        .collect();
    assert_eq!(at_merge.len(), 1);
    let waiting = at_merge[0].id;
    let behind: Vec<&CarData> = sim
        .get_cars()
        .iter()
        .filter(|c| c.pos == CarCoord(5, 2))
        .collect();
    assert_eq!(behind.len(), 1);
    let second = behind[0].id;
    sim.run_round();
    // Both are where they were: the first waits for the car from below, the second for
    // the first.
    assert!(sim
        .get_cars()
        .iter()
        .any(|c| c.id == waiting && c.pos == CarCoord(3, 2)));
    assert!(sim
        .get_cars()
        .iter()
        .any(|c| c.id == second && c.pos == CarCoord(5, 2)));
}

#[test]
fn given_draws_decide_where_cars_start() {
    let mut sim = Simulator::new(ring_through_finish(), 5);
    sim.set_spawn_policy(SpawnPolicy::Random(4));
    sim.run_round_with(&vec![false]);
    assert!(sim.get_cars().is_empty());
    assert!(!sim.is_finished());
    sim.run_round_with(&vec![true]);
    assert_eq!(sim.get_cars(), &vec![car(0, 3, 2, Direction::Right)]);
    sim.run_round_with(&vec![false]);
    assert_eq!(sim.get_cars(), &vec![car(0, 4, 1, Direction::Up)]);
    sim.run_round_with(&vec![true]);
    assert_eq!(
        sim.get_cars(),
        &vec![car(0, 3, 0, Direction::Left), car(1, 3, 2, Direction::Right)]
    );
    assert_eq!(sim.get_round(), 4);
}

#[test]
fn random_policy_at_its_ends_is_certain() {
    let mut never = Simulator::new(ring_through_finish(), 5);
    never.set_spawn_policy(SpawnPolicy::Random(0));
    let mut always = Simulator::new(ring_through_finish(), 5);
    always.set_spawn_policy(SpawnPolicy::Random(8));
    for round in 1..=4 {
        never.run_round();
        always.run_round();
        assert!(never.get_cars().is_empty());
        assert_eq!(always.get_cars().len(), round);
    }
}

#[test]
fn random_policy_starts_some_cars_but_not_all_at_once() {
    let mut sim = Simulator::new(ring_with_feeder(), usize::MAX);
    sim.set_spawn_policy(SpawnPolicy::Random(4));
    let mut started = 0;
    for _ in 0..200 {
        sim.run_round();
        for ev in sim.events() {
            if let SimEvent::Round(cars) = ev {
                for c in cars {
                    started = started.max(c.id + 1);
                }
            }
        }
    }
    assert!(started > 0);
    assert!(started < 200);
}

#[test]
fn simulator_is_not_made_for_a_course_at_the_end_of_the_number_range() {
    let far = course_of(&[(isize::MAX / 2, 0, TileType::Finish, DihedralElement::Id)]);
    assert!(!Simulator::fits(&far));
    assert!(Simulator::try_new(far, 1).is_none());
    let near = course_of(&[(isize::MAX / 2 - 1, 0, TileType::Finish, DihedralElement::Rot90)]);
    assert!(Simulator::fits(&near));
    let mut sim = Simulator::try_new(near, 1).unwrap();
    sim.run_round();
    // the car starts on the cell's right edge and crashes there
    assert!(sim.get_cars().is_empty());
    let events = sim.events();
    match &events[0] {
        SimEvent::Round(cars) => {
            assert_eq!(cars, &vec![car(0, isize::MAX - 2, 0, Direction::Right)])
        }
        _ => panic!("expected a round"),
    }
    assert!(matches!(events[1], SimEvent::Crashed(0)));
}

#[test]
fn take_course_gives_the_course_back() {
    let sim = Simulator::new(ring_with_feeder(), 1);
    let course = sim.take_course();
    assert_eq!(course.size(), 7);
    assert_eq!(
        course.get(&TileCoord(1, 1)),
        Some(tile(TileType::Merge, DihedralElement::Rot90))
    );
}

fn level(name: &str, cars: usize, finish: Vec<usize>, banned: &[TileType]) -> LevelData {
    let mut set = BannedTiles::new();
    for t in banned {
        set.ban(*t);
    }
    LevelData {
        name: name.to_string(),
        cars,
        finish,
        tutorial: None,
        banned: set,
    }
}

/// Levels with a course that solves each.
fn solved_levels() -> Vec<(LevelData, Course)> {
    let lights = [
        TileType::LightIntersection,
        TileType::LightTurns,
        TileType::LightForwardTurn,
    ];
    vec![
        (
            level("Nobody", 1, vec![], &[TileType::Turn, TileType::Merge]),
            course_of(&[(0, 0, TileType::Finish, DihedralElement::Id)]),
        ),
        (
            level("In order", 3, vec![0, 1, 2], &lights),
            ring_through_finish(),
        ),
        (
            level("For ever", 2, vec![], &lights),
            ring_with_feeder(),
        ),
    ]
}

#[test]
fn test_solutions() {
    for (lvl, course) in solved_levels() {
        for (_, tile) in course.entries() {
            assert!(!lvl.banned.is_banned(tile.tile_type));
        }
        let mut tracker = Tracker::new(lvl.cars);
        let mut sim = Simulator::new(course.clone(), lvl.cars);
        while !(sim.is_finished() || tracker.is_loop_detected()) {
            sim.run_round();
            for ev in sim.events() {
                tracker.process_event(ev);
            }
        }
        assert_eq!(&lvl.finish, tracker.get_finishes(), "{}", lvl.name);
    }
}
