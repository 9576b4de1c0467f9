use race::combine::{combine, combine_options};
use race::direction::{DihedralElement, Direction};
use race::level::BannedTiles;
use race::simulator::{is_entrance, is_entrance_id, is_exit, is_exit_id};
use race::tile::{Tile, TileType};

fn directions() -> Vec<Direction> {
    (0..4).map(|i| Direction::from_repr(i).unwrap()).collect()
}

fn elements() -> Vec<DihedralElement> {
    (0..8).map(|i| DihedralElement::from_repr(i).unwrap()).collect()
}

fn tile_types() -> Vec<TileType> {
    (0..8).map(|i| TileType::from_repr(i).unwrap()).collect()
}

fn tile(tile_type: TileType, transform: DihedralElement) -> Tile {
    Tile {
        tile_type,
        transform,
        offset: 0,
    }
}

#[test]
fn test_entrance_exit() {
    for t in tile_types() {
        for d in directions() {
            assert!(!(is_entrance_id(t, d.opposite()) && is_exit_id(t, d)));
        }
    }
}

#[test]
fn test_combine() {
    for tile1 in [TileType::Straight, TileType::Turn] {
        for tile2 in tile_types() {
            for tr1 in elements() {
                for tr2 in elements() {
                    let orig = Tile {
                        tile_type: tile2,
                        transform: tr2,
                        offset: 0,
                    };
                    let add = Tile {
                        tile_type: tile1,
                        transform: tr1,
                        offset: 0,
                    };
                    for combined in combine_options(orig, add) {
                        for d in directions() {
                            assert!(
                                is_entrance(combined, d)
                                    == (is_entrance(orig, d) && !is_exit(add, d.opposite()))
                                        | is_entrance(add, d)
                            );
                            assert!(
                                is_exit(combined, d)
                                    == (is_exit(orig, d) && !is_entrance(add, d.opposite()))
                                        | is_exit(add, d)
                            );
                        }
                    }
                }
            }
        }
    }
}

#[test]
fn entrance_and_exit_tables() {
    let entrances: [(TileType, &[Direction]); 8] = [
        (TileType::Straight, &[Direction::Up]),
        (TileType::Turn, &[Direction::Up]),
        (TileType::Finish, &[Direction::Up]),
        (TileType::LightTurns, &[Direction::Up]),
        (TileType::LightForwardTurn, &[Direction::Up]),
        (TileType::Merge, &[Direction::Up, Direction::Left]),
        (TileType::YieldIntersection, &[Direction::Up, Direction::Left]),
        (TileType::LightIntersection, &[Direction::Up, Direction::Left]),
    ];
    let exits: [(TileType, &[Direction]); 8] = [
        (TileType::Straight, &[Direction::Up]),
        (TileType::Turn, &[Direction::Left]),
        (TileType::Finish, &[Direction::Up]),
        (TileType::LightTurns, &[Direction::Left, Direction::Right]),
        (TileType::LightForwardTurn, &[Direction::Up, Direction::Left]),
        (TileType::Merge, &[Direction::Up]),
        (TileType::YieldIntersection, &[Direction::Up, Direction::Left]),
        (TileType::LightIntersection, &[Direction::Up, Direction::Left]),
    ];
    for (t, dirs) in entrances {
        for d in directions() {
            assert_eq!(is_entrance_id(t, d), dirs.contains(&d), "{:?} {:?}", t, d);
        }
    }
    for (t, dirs) in exits {
        for d in directions() {
            assert_eq!(is_exit_id(t, d), dirs.contains(&d), "{:?} {:?}", t, d);
        }
    }
}

#[test]
fn placed_tiles_read_the_table_in_their_own_frame() {
    let t = tile(TileType::Turn, DihedralElement::Rot90);
    assert!(is_entrance(t, Direction::Right));
    assert!(!is_entrance(t, Direction::Up));
    assert!(is_exit(t, Direction::Up));
    assert!(!is_exit(t, Direction::Left));
}

#[test]
fn straight_over_the_same_straight_is_kept() {
    let orig = Tile {
        tile_type: TileType::Straight,
        transform: DihedralElement::Rot90,
        offset: 1,
    };
    let add = tile(TileType::Straight, DihedralElement::Rot90);
    assert_eq!(combine_options(orig, add), vec![orig]);
    assert_eq!(combine(orig, add, &BannedTiles::new()), orig);
}

#[test]
fn straight_across_a_straight_gives_both_intersections() {
    // orig runs upwards, add runs to the right
    let orig = tile(TileType::Straight, DihedralElement::Id);
    let add = tile(TileType::Straight, DihedralElement::Rot90);
    let options = combine_options(orig, add);
    assert_eq!(options.len(), 2);
    assert_eq!(options[0].tile_type, TileType::YieldIntersection);
    assert_eq!(options[1].tile_type, TileType::LightIntersection);
    assert_eq!(options[0].transform, options[1].transform);
    assert_eq!(options[0].offset, 0);
    // the canonical Left of the junction is the new road, its canonical Up the old one
    assert_eq!(options[0].transform * Direction::Left, Direction::Right);
    assert_eq!(options[0].transform * Direction::Up, Direction::Up);
    assert_eq!(options[0].transform, DihedralElement::Flip0);
}

#[test]
fn straight_against_a_straight_has_no_option() {
    let orig = tile(TileType::Straight, DihedralElement::Id);
    let add = tile(TileType::Straight, DihedralElement::Rot180);
    assert_eq!(combine_options(orig, add), vec![]);
    assert_eq!(combine(orig, add, &BannedTiles::new()), add);
}

#[test]
fn straight_into_the_side_of_a_turn_gives_a_merge() {
    // The turn enters upwards and leaves to the left. A straight running to the left
    // shares the exit and adds an entrance from the right.
    let orig = tile(TileType::Turn, DihedralElement::Id);
    let add = tile(TileType::Straight, DihedralElement::Rot270);
    let options = combine_options(orig, add);
    assert_eq!(options.len(), 1);
    assert_eq!(options[0].tile_type, TileType::Merge);
    assert_eq!(options[0].transform * Direction::Up, Direction::Left);
    assert_eq!(options[0].transform * Direction::Left, Direction::Up);
}

#[test]
fn straight_out_of_a_turn_gives_a_fork() {
    // The turn enters upwards and leaves to the left; the straight goes on upwards.
    let orig = tile(TileType::Turn, DihedralElement::Id);
    let add = tile(TileType::Straight, DihedralElement::Id);
    let options = combine_options(orig, add);
    assert_eq!(options.len(), 1);
    assert_eq!(options[0].tile_type, TileType::LightForwardTurn);
    assert_eq!(options[0].transform, DihedralElement::Id);
}

#[test]
fn turn_over_the_mirrored_turn_gives_light_turns() {
    let orig = tile(TileType::Turn, DihedralElement::Flip0);
    let add = tile(TileType::Turn, DihedralElement::Id);
    let options = combine_options(orig, add);
    assert_eq!(
        options,
        vec![Tile {
            tile_type: TileType::LightTurns,
            transform: DihedralElement::Id,
            offset: 0
        }]
    );
}

#[test]
fn junction_tiles_are_never_combined() {
    let orig = tile(TileType::Straight, DihedralElement::Id);
    for t in tile_types() {
        if t != TileType::Straight && t != TileType::Turn {
            for e in elements() {
                assert_eq!(combine_options(orig, tile(t, e)), vec![]);
                assert_eq!(combine(orig, tile(t, e), &BannedTiles::new()), tile(t, e));
            }
        }
    }
}

#[test]
fn combine_skips_banned_types() {
    let orig = tile(TileType::Straight, DihedralElement::Id);
    let add = tile(TileType::Straight, DihedralElement::Rot90);
    let options = combine_options(orig, add);
    let mut banned = BannedTiles::new();
    assert_eq!(combine(orig, add, &banned), options[0]);
    banned.ban(TileType::YieldIntersection);
    assert!(banned.is_banned(TileType::YieldIntersection));
    assert!(!banned.is_banned(TileType::LightIntersection));
    assert_eq!(combine(orig, add, &banned), options[1]);
    banned.ban(TileType::LightIntersection);
    assert_eq!(combine(orig, add, &banned), add);
    let listed = BannedTiles::from_list(&vec![
        TileType::LightIntersection,
        TileType::YieldIntersection,
        TileType::LightIntersection,
    ]);
    for t in tile_types() {
        assert_eq!(listed.is_banned(t), banned.is_banned(t));
    }
    assert!(!BannedTiles::default().is_banned(TileType::Merge));
}

#[test]
fn every_combination_skips_banned_types() {
    for banned_bits in 0..256usize {
        let mut banned = BannedTiles::new();
        for t in tile_types() {
            if banned_bits & (1 << t.repr()) != 0 {
                banned.ban(t);
            }
        }
        for tile2 in tile_types() {
            for tr1 in elements() {
                let orig = tile(tile2, DihedralElement::Rot90);
                let add = tile(TileType::Turn, tr1);
                let options = combine_options(orig, add);
                let expected = options
                    .iter()
                    .copied()
                    .find(|o| !banned.is_banned(o.tile_type))
                    .unwrap_or(add);
                assert_eq!(combine(orig, add, &banned), expected);
            }
        }
    }
}
