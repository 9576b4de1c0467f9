use race::course::TileCoord;
use race::direction::{DihedralElement, Direction, ROTATIONS};
use race::path::{common_tile, direction_to, track_tile, Path};
use race::simulator::{
    is_entrance_id, is_exit_id, CarCoord, STRAIGHT_ENTRANCE, STRAIGHT_EXIT, TURN_ENTRANCE,
    TURN_EXIT,
};
use race::tile::{Tile, TileType};

fn elements() -> Vec<DihedralElement> {
    (0..8).map(|i| DihedralElement::from_repr(i).unwrap()).collect()
}

#[test]
fn test_track_tile() {
    let pos = TileCoord(0, 0);
    let cpos: CarCoord = CarCoord::from_tile(pos);
    let straight_start = STRAIGHT_ENTRANCE.opposite();
    let straight_end = STRAIGHT_EXIT;
    let turn_start = TURN_ENTRANCE.opposite();
    let turn_end = TURN_EXIT;
    assert!(is_entrance_id(
        TileType::Straight,
        straight_start.opposite()
    ));
    assert!(is_exit_id(TileType::Straight, straight_end));
    assert!(is_entrance_id(TileType::Turn, turn_start.opposite()));
    assert!(is_exit_id(TileType::Turn, turn_end));
    for r in ROTATIONS {
        let p1 = cpos + r * straight_start;
        let p2 = cpos + r * straight_end;
        assert_eq!(
            track_tile(p1, p2),
            (
                pos,
                Tile {
                    tile_type: TileType::Straight,
                    transform: r,
                    offset: 0
                }
            )
        );
    }
    for e in elements() {
        let p1 = cpos + e * turn_start;
        let p2 = cpos + e * turn_end;
        assert_eq!(
            track_tile(p1, p2),
            (
                pos,
                Tile {
                    tile_type: TileType::Turn,
                    transform: e,
                    offset: 0
                }
            )
        );
    }
}

#[test]
fn track_tile_away_from_the_origin() {
    for pos in [TileCoord(3, -7), TileCoord(-1, -1), TileCoord(-4, 5)] {
        let cpos = CarCoord::from_tile(pos);
        for e in elements() {
            let p1 = cpos + e * Direction::Down;
            let p2 = cpos + e * Direction::Left;
            let expected = Tile {
                tile_type: TileType::Turn,
                transform: e,
                offset: 0,
            };
            assert_eq!(track_tile(p1, p2), (pos, expected));
        }
    }
}

#[test]
fn common_tile_of_edge_midpoints() {
    // opposite edges of the tile (1, 2)
    assert_eq!(
        common_tile(CarCoord(2, 3), CarCoord(2, 5)),
        Some(TileCoord(1, 2))
    );
    // adjacent edges of the tile (0, 0)
    assert_eq!(
        common_tile(CarCoord(0, 1), CarCoord(-1, 0)),
        Some(TileCoord(0, 0))
    );
    // adjacent edges of the tile (-1, -1): the sums are -3 and -3
    assert_eq!(
        common_tile(CarCoord(-2, -1), CarCoord(-1, -2)),
        Some(TileCoord(-1, -1))
    );
    // the same edge twice: the sum of the even components is 2 modulo 4
    assert_eq!(common_tile(CarCoord(1, 0), CarCoord(1, 0)), None);
    // midpoints two tiles apart
    assert_eq!(common_tile(CarCoord(0, 1), CarCoord(0, 5)), None);
    // far apart
    assert_eq!(common_tile(CarCoord(0, 1), CarCoord(40, 1)), None);
    // at the edge of the number range
    assert_eq!(
        common_tile(CarCoord(isize::MAX, 0), CarCoord(isize::MAX, 0)),
        None
    );
    assert_eq!(
        common_tile(CarCoord(isize::MAX, 0), CarCoord(isize::MAX - 1, 1)),
        Some(TileCoord(isize::MAX / 2, 0))
    );
}

#[test]
fn direction_to_goes_by_the_sign_of_the_difference() {
    let c = CarCoord(4, 4);
    assert_eq!(direction_to(c, CarCoord(5, 4)), Direction::Right);
    assert_eq!(direction_to(c, CarCoord(3, 4)), Direction::Left);
    assert_eq!(direction_to(c, CarCoord(4, 5)), Direction::Down);
    assert_eq!(direction_to(c, CarCoord(4, 3)), Direction::Up);
    assert_eq!(direction_to(c, c), Direction::Up);
    // the horizontal component decides first
    assert_eq!(direction_to(c, CarCoord(5, 9)), Direction::Right);
    assert_eq!(direction_to(c, CarCoord(3, -9)), Direction::Left);
}

#[test]
fn path_starts_with_any_point() {
    let mut path = Path::default();
    assert!(path.path().is_empty());
    path.add(CarCoord(0, 1));
    assert_eq!(path.path(), &[CarCoord(0, 1)]);
    path.clear();
    assert!(path.path().is_empty());
}

#[test]
fn path_adds_neighbouring_midpoints() {
    let mut path = Path::new();
    path.add(CarCoord(0, 1));
    path.add(CarCoord(0, -1));
    path.add(CarCoord(1, -2));
    assert_eq!(
        path.path(),
        &[CarCoord(0, 1), CarCoord(0, -1), CarCoord(1, -2)]
    );
}

#[test]
fn path_takes_back_a_step() {
    let mut path = Path::new();
    path.add(CarCoord(0, 1));
    path.add(CarCoord(0, -1));
    path.add(CarCoord(0, -3));
    path.add(CarCoord(0, -1));
    assert_eq!(path.path(), &[CarCoord(0, 1), CarCoord(0, -1)]);
}

#[test]
fn path_replaces_a_step_on_the_same_tile() {
    let mut path = Path::new();
    path.add(CarCoord(0, 1));
    path.add(CarCoord(0, -1));
    // from the bottom edge of tile (0, 0) the path now leaves to the right instead
    path.add(CarCoord(1, 0));
    assert_eq!(path.path(), &[CarCoord(0, 1), CarCoord(1, 0)]);
}

#[test]
fn path_fills_in_the_points_between() {
    let mut path = Path::new();
    path.add(CarCoord(0, 5));
    // three tiles up, then through a corner onto a vertical edge
    path.add(CarCoord(3, -2));
    assert_eq!(
        path.path(),
        &[
            CarCoord(0, 5),
            CarCoord(0, 3),
            CarCoord(0, 1),
            CarCoord(0, -1),
            CarCoord(1, -2),
            CarCoord(3, -2)
        ]
    );
}

#[test]
fn path_stops_where_it_would_run_along_an_edge() {
    let mut path = Path::new();
    path.add(CarCoord(0, 1));
    // same row of horizontal edges: no step is possible
    path.add(CarCoord(4, 1));
    assert_eq!(path.path(), &[CarCoord(0, 1)]);
}

#[test]
fn drawn_paths_give_tiles() {
    let mut path = Path::new();
    path.add(CarCoord(0, 1));
    path.add(CarCoord(0, -1));
    path.add(CarCoord(1, -2));
    let tiles: Vec<(TileCoord, Tile)> = path
        .path()
        .windows(2)
        .map(|w| track_tile(w[0], w[1]))
        .collect();
    assert_eq!(
        tiles,
        vec![
            (
                TileCoord(0, 0),
                Tile {
                    tile_type: TileType::Straight,
                    transform: DihedralElement::Id,
                    offset: 0
                }
            ),
            (
                TileCoord(0, -1),
                Tile {
                    tile_type: TileType::Turn,
                    transform: DihedralElement::Flip0,
                    offset: 0
                }
            ),
        ]
    );
}
