use race::course::TileCoord;
use race::direction::{DihedralElement, Direction};
use race::playback::{animations, has_elapsed, not_before, CarPosition, Playback};
use race::save::{course_from_vec, course_to_vec, TileData};
use race::simulator::{CarCoord, CarData, SimEvent, SpawnPolicy};
use race::tile::{Tile, TileType};
use race::tooltip::{course_for, TooltipState};
use std::time::Duration;

fn car(id: usize, x: isize, y: isize, dir: Direction) -> CarData {
    CarData {
        id,
        pos: CarCoord(x, y),
        dir,
    }
}

fn tile(tile_type: TileType, transform: DihedralElement) -> Tile {
    Tile {
        tile_type,
        transform,
        offset: 0,
    }
}

#[test]
fn rounds_are_shown_for_their_time() {
    assert_eq!(Playback::Paused.frame_duration(), Duration::from_millis(100));
    assert_eq!(Playback::Playing.frame_duration(), Duration::from_millis(500));
    assert_eq!(Playback::Fast.frame_duration(), Duration::from_millis(100));
    assert_eq!(Playback::Playing.frame_millis(), 500);
    let t = Duration::from_millis;
    assert!(has_elapsed(t(700), t(200), t(500)));
    assert!(!has_elapsed(t(699), t(200), t(500)));
    assert!(has_elapsed(t(200), t(200), t(0)));
    assert!(has_elapsed(
        Duration::from_nanos(1_000_000_001),
        Duration::from_nanos(1),
        Duration::from_secs(1)
    ));
    assert!(!has_elapsed(
        Duration::from_nanos(1_000_000_000),
        Duration::from_nanos(1),
        Duration::from_secs(1)
    ));
    assert!(not_before(t(5), t(5)));
    assert!(!not_before(t(4), t(5)));
}

#[test]
fn cars_are_matched_by_their_numbers() {
    let old = [car(0, 0, 1, Direction::Up), car(1, 4, 1, Direction::Down), car(2, 9, 9, Direction::Left)];
    let new = [car(1, 4, 3, Direction::Down), car(3, 2, 3, Direction::Up), car(0, 0, -1, Direction::Up)];
    let mut ways = animations(&old, &new);
    ways.sort_by_key(|a| a.id);
    assert_eq!(ways.len(), 3);
    assert_eq!(ways[0].id, 0);
    assert_eq!(
        ways[0].old_pos,
        Some(CarPosition {
            pos: CarCoord(0, 1),
            dir: Direction::Up
        })
    );
    assert_eq!(
        ways[0].new_pos,
        CarPosition {
            pos: CarCoord(0, -1),
            dir: Direction::Up
        }
    );
    assert_eq!(ways[1].id, 1);
    assert_eq!(ways[1].old_pos.unwrap().pos, CarCoord(4, 1));
    assert_eq!(ways[1].new_pos.pos, CarCoord(4, 3));
    // a car that has just started has no old place
    assert_eq!(ways[2].id, 3);
    assert_eq!(ways[2].old_pos, None);
    assert_eq!(ways[2].new_pos, CarPosition::from(car(3, 2, 3, Direction::Up)));
    assert!(animations(&old, &[]).is_empty());
    let many: Vec<CarData> = (0..300).map(|i| car(i, 2 * i as isize, 1, Direction::Up)).collect();
    let moved: Vec<CarData> = (0..300).map(|i| car(i, 2 * i as isize, -1, Direction::Up)).collect();
    let mut ways = animations(&many, &moved);
    ways.sort_by_key(|a| a.id);
    assert_eq!(ways.len(), 300);
    for (i, w) in ways.iter().enumerate() {
        assert_eq!(w.id, i);
        assert_eq!(w.old_pos.unwrap().pos, CarCoord(2 * i as isize, 1));
        assert_eq!(w.new_pos.pos, CarCoord(2 * i as isize, -1));
    }
}

#[test]
fn stored_courses_come_back() {
    let data = vec![
        TileData {
            coord: TileCoord(0, 0),
            tile: tile(TileType::Straight, DihedralElement::Id),
        },
        TileData {
            coord: TileCoord(3, -4),
            tile: tile(TileType::Merge, DihedralElement::Flip45),
        },
    ];
    let course = course_from_vec(&data);
    assert_eq!(course.size(), 2);
    assert_eq!(course.get(&TileCoord(3, -4)), Some(data[1].tile));
    let mut back = course_to_vec(&course);
    back.sort_by_key(|d| (d.coord.0, d.coord.1));
    assert_eq!(back, data);
}

#[test]
fn demo_course_of_a_merge() {
    let course = course_for(TileType::Merge);
    let mut entries = course.entries();
    entries.sort_by_key(|(c, _)| (c.0, c.1));
    assert_eq!(
        entries,
        vec![
            // the road that leaves upwards
            (TileCoord(1, 0), tile(TileType::Straight, DihedralElement::Id)),
            (TileCoord(1, 1), tile(TileType::Merge, DihedralElement::Id)),
            // the road from below, which drives upwards
            (TileCoord(1, 2), tile(TileType::Straight, DihedralElement::Id)),
            (TileCoord(1, 3), tile(TileType::Finish, DihedralElement::Id)),
            // the road from the right, which drives to the left
            (TileCoord(2, 1), tile(TileType::Straight, DihedralElement::Rot270)),
            (TileCoord(3, 1), tile(TileType::Finish, DihedralElement::Rot270)),
        ]
    );
    assert_eq!(course_for(TileType::Straight).size(), 4);
    assert_eq!(course_for(TileType::Finish).size(), 4);
    assert_eq!(course_for(TileType::Turn).size(), 4);
    assert_eq!(course_for(TileType::LightTurns).size(), 5);
    assert_eq!(course_for(TileType::LightIntersection).size(), 7);
}

#[test]
fn tooltip_race_runs() {
    let mut tip = TooltipState::new(TileType::YieldIntersection);
    assert!(tip.tile == TileType::YieldIntersection);
    assert!(tip.cars.is_empty());
    assert_eq!(tip.last_sim_time, Duration::default());
    assert_eq!(tip.sim.get_starts().len(), 2);
    let mut seen = 0;
    for round in 1..=100u64 {
        tip.advance(Duration::from_millis(100 * round));
        assert_eq!(tip.last_sim_time, Duration::from_millis(100 * round));
        assert_eq!(tip.sim.get_round(), round as usize);
        assert!(tip.sim.events().is_empty());
        // each car on the screen has its way
        assert_eq!(tip.animations.len(), tip.cars.len());
        for c in &tip.cars {
            assert!(tip.animations.iter().any(|a| a.id == c.id && a.new_pos.pos == c.pos));
        }
        seen = seen.max(tip.cars.len());
    }
    assert!(seen > 0);
    let _ = (SpawnPolicy::Always, SimEvent::Finished(0));
}
