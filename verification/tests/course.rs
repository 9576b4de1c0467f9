use race::course::{bounding_rect, Course, CourseEdit, CourseEditState, TileCoord};
use race::direction::{DihedralElement, Direction, Isometry};
use race::level::SolveData;
use race::simulator::CarCoord;
use race::tile::{Tile, TileType};

fn tile(tile_type: TileType, transform: DihedralElement) -> Tile {
    Tile {
        tile_type,
        transform,
        offset: 0,
    }
}

#[test]
fn tile_coordinates_add_up() {
    let c = TileCoord(3, -2);
    assert_eq!(c + Direction::Up, TileCoord(3, -3));
    assert_eq!(c + Direction::Right, TileCoord(4, -2));
    assert_eq!(c - Direction::Down, TileCoord(3, -3));
    assert_eq!(c - Direction::Left, TileCoord(4, -2));
    assert_eq!(c + TileCoord(1, 1), TileCoord(4, -1));
    assert_eq!(c - TileCoord(1, 1), TileCoord(2, -3));
    assert_eq!(-c, TileCoord(-3, 2));
    assert_eq!(TileCoord::from(Direction::Left), TileCoord(-1, 0));
    assert_eq!(TileCoord::from(Direction::Down), TileCoord(0, 1));
}

#[test]
fn dihedral_elements_move_cells() {
    let c = TileCoord(2, 1);
    assert_eq!(DihedralElement::Id * c, TileCoord(2, 1));
    assert_eq!(DihedralElement::Rot90 * c, TileCoord(-1, 2));
    assert_eq!(DihedralElement::Rot180 * c, TileCoord(-2, -1));
    assert_eq!(DihedralElement::Rot270 * c, TileCoord(1, -2));
    assert_eq!(DihedralElement::Flip0 * c, TileCoord(-2, 1));
    assert_eq!(DihedralElement::Flip90 * c, TileCoord(2, -1));
    assert_eq!(DihedralElement::Flip45 * c, TileCoord(-1, -2));
    assert_eq!(DihedralElement::Flip135 * c, TileCoord(1, 2));
    for i in 0..8 {
        let e = DihedralElement::from_repr(i).unwrap();
        for j in 0..4 {
            let d = Direction::from_repr(j).unwrap();
            assert_eq!(e * TileCoord::from(d), TileCoord::from(e * d));
        }
    }
}

#[test]
fn isometries_take_anchor_to_anchor() {
    let from = TileCoord(2, 5);
    let to = TileCoord(-1, 3);
    for i in 0..8 {
        let e = DihedralElement::from_repr(i).unwrap();
        let m = Isometry::from_anchors(from, to, e);
        assert_eq!(m * from, to);
        assert_eq!(m.apply_inverse(to), from);
        let p = TileCoord(7, -4);
        assert_eq!(m.apply_inverse(m * p), p);
        assert_eq!(m.inverse() * (m * p), p);
        assert_eq!(m * (from + Direction::Up), to + e * Direction::Up);
    }
    let m = Isometry::from_anchors(from, to, DihedralElement::Rot90);
    assert!(m.dihedral == DihedralElement::Rot90);
    assert_eq!(m.offset, TileCoord(4, 1));
}

#[test]
fn car_coordinates_are_twice_as_fine() {
    assert_eq!(CarCoord::from_tile(TileCoord(3, -2)), CarCoord(6, -4));
    assert_eq!(CarCoord(6, -4).to_tile(), TileCoord(3, -2));
    assert_eq!(CarCoord(6, -4).try_to_tile(), Some(TileCoord(3, -2)));
    assert_eq!(CarCoord(5, -4).try_to_tile(), None);
    assert_eq!(CarCoord(6, -3).try_to_tile(), None);
    assert_eq!(CarCoord(-1, -1).try_to_tile(), None);
    assert_eq!(CarCoord(1, 1) + Direction::Left, CarCoord(0, 1));
    assert_eq!(CarCoord(1, 1) - Direction::Left, CarCoord(2, 1));
    assert_eq!(
        CarCoord(1, 1).add_multiple(Direction::Down, 3),
        CarCoord(1, 4)
    );
    assert_eq!(
        CarCoord(1, 1).add_multiple(Direction::Right, -2),
        CarCoord(-1, 1)
    );
    assert_eq!(CarCoord(1, 1).distance_squared(CarCoord(4, -3)), 25);
}

#[test]
fn bounding_rect_of_cells() {
    let (xs, ys) = bounding_rect(&[TileCoord(3, -2), TileCoord(-1, 4), TileCoord(0, 0)]);
    assert_eq!(xs, -1..=3);
    assert_eq!(ys, -2..=4);
    let (xs, ys) = bounding_rect(&[TileCoord(5, 5)]);
    assert_eq!(xs, 5..=5);
    assert_eq!(ys, 5..=5);
    let (xs, ys) = bounding_rect(&[]);
    assert_eq!(xs, isize::MAX..=isize::MIN);
    assert_eq!(ys, isize::MAX..=isize::MIN);
    assert!(xs.is_empty());
}

#[test]
fn course_is_a_map() {
    let mut course = Course::new();
    assert!(course.is_empty());
    assert_eq!(course.size(), 0);
    assert_eq!(course.get(&TileCoord(0, 0)), None);
    let a = tile(TileType::Straight, DihedralElement::Id);
    let b = tile(TileType::Turn, DihedralElement::Rot90);
    course.insert_mut(TileCoord(0, 0), a);
    course.insert_mut(TileCoord(-3, 7), b);
    assert_eq!(course.size(), 2);
    assert!(!course.is_empty());
    assert_eq!(course.get(&TileCoord(0, 0)), Some(a));
    assert_eq!(course.get(&TileCoord(-3, 7)), Some(b));
    assert!(course.contains_key(&TileCoord(-3, 7)));
    assert!(!course.contains_key(&TileCoord(7, -3)));
    course.insert_mut(TileCoord(0, 0), b);
    assert_eq!(course.size(), 2);
    assert_eq!(course.get(&TileCoord(0, 0)), Some(b));
    assert!(course.remove_mut(&TileCoord(0, 0)));
    assert!(!course.remove_mut(&TileCoord(0, 0)));
    assert_eq!(course.size(), 1);
    assert_eq!(course.entries(), vec![(TileCoord(-3, 7), b)]);
}

#[test]
fn course_clones_do_not_share_changes() {
    let a = tile(TileType::Straight, DihedralElement::Id);
    let b = tile(TileType::Turn, DihedralElement::Rot90);
    let mut course = Course::new();
    course.insert_mut(TileCoord(0, 0), a);
    let frozen = course.clone();
    course.insert_mut(TileCoord(0, 0), b);
    course.insert_mut(TileCoord(1, 0), b);
    assert_eq!(frozen.size(), 1);
    assert_eq!(frozen.get(&TileCoord(0, 0)), Some(a));
    assert_eq!(course.get(&TileCoord(0, 0)), Some(b));
}

#[test]
fn course_from_entries_lists_them_again() {
    let a = tile(TileType::Straight, DihedralElement::Id);
    let b = tile(TileType::Turn, DihedralElement::Rot90);
    let c = tile(TileType::Merge, DihedralElement::Flip0);
    let entries = vec![
        (TileCoord(0, 0), a),
        (TileCoord(1, 0), b),
        (TileCoord(0, 0), c),
    ];
    let course = Course::from_entries(&entries);
    assert_eq!(course.size(), 2);
    assert_eq!(course.get(&TileCoord(0, 0)), Some(c));
    let mut listed = course.entries();
    listed.sort_by_key(|(p, _)| (p.0, p.1));
    assert_eq!(listed, vec![(TileCoord(0, 0), c), (TileCoord(1, 0), b)]);
    let many: Vec<(TileCoord, Tile)> = (0..1000).map(|i| (TileCoord(i, -i), a)).collect();
    let course = Course::from_entries(&many);
    assert_eq!(course.size(), 1000);
    let mut listed = course.entries();
    listed.sort_by_key(|(p, _)| (p.0, p.1));
    assert_eq!(listed, many);
    assert!(Course::default().is_empty());
}

#[test]
fn a_second_finish_line_turns_the_first_into_a_straight() {
    let finish = tile(TileType::Finish, DihedralElement::Rot90);
    let mut state = CourseEditState::from_course(Course::new());
    assert_eq!(state.get_finish(), None);
    assert!(state.set(TileCoord(0, 0), finish));
    assert_eq!(state.get_finish(), Some(TileCoord(0, 0)));
    assert!(!state.set(TileCoord(0, 0), finish));
    assert!(state.set(TileCoord(5, 5), tile(TileType::Finish, DihedralElement::Id)));
    assert_eq!(state.get_finish(), Some(TileCoord(5, 5)));
    assert_eq!(
        state.course().get(&TileCoord(0, 0)),
        Some(tile(TileType::Straight, DihedralElement::Rot90))
    );
    // another tile in place of the finish line
    assert!(state.set(TileCoord(5, 5), tile(TileType::Turn, DihedralElement::Id)));
    assert_eq!(state.get_finish(), None);
    assert!(state.set(TileCoord(5, 5), finish));
    assert!(state.remove(TileCoord(5, 5)));
    assert_eq!(state.get_finish(), None);
    assert!(!state.remove(TileCoord(5, 5)));
    assert_eq!(state.course().size(), 1);
}

#[test]
fn a_finish_line_put_on_the_finish_line_stays_a_finish_line() {
    let mut state = CourseEditState::from_course(Course::new());
    assert!(state.set(TileCoord(0, 0), tile(TileType::Finish, DihedralElement::Id)));
    assert!(state.set(TileCoord(0, 0), tile(TileType::Finish, DihedralElement::Rot90)));
    assert_eq!(state.get_finish(), Some(TileCoord(0, 0)));
    assert_eq!(
        state.course().get(&TileCoord(0, 0)),
        Some(tile(TileType::Finish, DihedralElement::Rot90))
    );
    assert_eq!(state.course().size(), 1);
    assert!(!state.set(TileCoord(0, 0), tile(TileType::Finish, DihedralElement::Rot90)));
}

#[test]
fn edit_state_finds_the_finish_line_of_a_course() {
    let mut course = Course::new();
    course.insert_mut(TileCoord(1, 1), tile(TileType::Turn, DihedralElement::Id));
    course.insert_mut(TileCoord(2, 1), tile(TileType::Finish, DihedralElement::Id));
    let state = CourseEditState::from_course(course);
    assert_eq!(state.get_finish(), Some(TileCoord(2, 1)));
    let copy = state.clone();
    assert_eq!(copy.get_finish(), Some(TileCoord(2, 1)));
    assert_eq!(copy.course().size(), 2);
}

#[test]
fn history_can_be_undone_and_redone() {
    let a = tile(TileType::Straight, DihedralElement::Id);
    let b = tile(TileType::Turn, DihedralElement::Rot90);
    let mut edit = CourseEdit::new(Course::new());
    assert!(!edit.undo());
    assert!(!edit.redo());
    assert!(edit.set_single(TileCoord(0, 0), a));
    assert!(!edit.set_single(TileCoord(0, 0), a));
    assert!(edit.set_single(TileCoord(1, 0), b));
    assert_eq!(edit.get_course().size(), 2);
    assert_eq!(edit.get(TileCoord(1, 0)), Some(b));
    assert!(edit.undo());
    assert_eq!(edit.get_course().size(), 1);
    assert_eq!(edit.get(TileCoord(1, 0)), None);
    assert!(edit.undo());
    assert!(edit.get_course().is_empty());
    assert!(!edit.undo());
    assert!(edit.redo());
    assert_eq!(edit.get(TileCoord(0, 0)), Some(a));
    // a new step replaces the steps that were undone
    assert!(edit.set_single(TileCoord(2, 0), b));
    assert!(!edit.redo());
    assert_eq!(edit.get(TileCoord(1, 0)), None);
    assert_eq!(edit.get(TileCoord(2, 0)), Some(b));
    assert_eq!(edit.get_finish(), None);
    assert!(edit.undo());
    // the newest state is given back, not the current one
    let course = edit.take_course();
    assert_eq!(course.size(), 2);
}

#[test]
fn a_transaction_is_one_step() {
    let a = tile(TileType::LightIntersection, DihedralElement::Id);
    let b = tile(TileType::Turn, DihedralElement::Rot90);
    let mut edit = CourseEdit::new(Course::new());
    let mut t = edit.edit();
    t.set(TileCoord(0, 0), a);
    t.set(TileCoord(1, 0), b);
    t.toggle_lights(TileCoord(0, 0));
    t.toggle_lights(TileCoord(1, 0));
    t.toggle_lights(TileCoord(9, 9));
    t.apply_transform(TileCoord(1, 0), DihedralElement::Rot90);
    t.apply_transform(TileCoord(9, 9), DihedralElement::Rot90);
    t.remove(TileCoord(7, 7));
    assert_eq!(t.course().size(), 2);
    assert!(edit.get_course().is_empty());
    assert!(t.commit(&mut edit));
    assert_eq!(
        edit.get(TileCoord(0, 0)),
        Some(Tile {
            tile_type: TileType::LightIntersection,
            transform: DihedralElement::Id,
            offset: 1
        })
    );
    assert_eq!(
        edit.get(TileCoord(1, 0)),
        Some(tile(TileType::Turn, DihedralElement::Rot180))
    );
    assert!(edit.undo());
    assert!(edit.get_course().is_empty());
    assert!(!edit.undo());
    // a transaction that changes nothing is no step
    let mut t = edit.edit();
    t.remove(TileCoord(0, 0));
    assert!(!t.commit(&mut edit));
    assert!(edit.redo());
    // nor is one that sets what is there
    let mut t = edit.edit();
    t.set(TileCoord(1, 0), tile(TileType::Turn, DihedralElement::Rot180));
    assert!(!t.commit(&mut edit));
    let mut other = Course::new();
    other.insert_mut(TileCoord(4, 4), tile(TileType::Finish, DihedralElement::Id));
    edit.set_course(other);
    assert_eq!(edit.get_finish(), Some(TileCoord(4, 4)));
    assert!(edit.undo());
    assert_eq!(edit.get_finish(), None);
}

#[test]
fn tiles_toggle_and_reverse() {
    let t = Tile {
        tile_type: TileType::LightTurns,
        transform: DihedralElement::Rot90,
        offset: 0,
    };
    assert_eq!(t.toggle_lights().offset, 1);
    assert_eq!(t.toggle_lights().transform, DihedralElement::Rot90);
    assert_eq!(t.toggle_lights().toggle_lights(), t);
    assert_eq!(t.toggle_lights_if(false), t);
    assert_eq!(t.toggle_lights_if(true), t.toggle_lights());
    let y = tile(TileType::YieldIntersection, DihedralElement::Rot90);
    assert_eq!(
        y.toggle_lights().transform,
        DihedralElement::Rot90 * DihedralElement::Flip135
    );
    assert_eq!(y.toggle_lights().toggle_lights(), y);
    let s = tile(TileType::Straight, DihedralElement::Rot90);
    // a reversed straight runs the other way: its transform is mirrored, not turned
    assert_eq!(s.reverse().transform, DihedralElement::Flip135);
    assert_eq!(s.reverse().transform * Direction::Up, Direction::Left);
    assert_eq!(s.reverse().reverse(), s);
    assert_eq!(s.reverse_if(false), s);
    assert_eq!(s.reverse_if(true), s.reverse());
    let turn = tile(TileType::Turn, DihedralElement::Id);
    assert_eq!(turn.reverse().transform, DihedralElement::Flip45);
    assert_eq!(
        turn.apply_transform(DihedralElement::Rot90).transform,
        DihedralElement::Rot90
    );
    assert_eq!(Tile::default_for_type(TileType::Merge), tile(TileType::Merge, DihedralElement::Id));
    for i in 0..8 {
        let t = TileType::from_repr(i).unwrap();
        assert_eq!(t.repr(), i);
        assert_eq!(
            t.has_lights(),
            matches!(
                t,
                TileType::LightIntersection | TileType::LightTurns | TileType::LightForwardTurn
            )
        );
        let r = t.reverse_trans();
        assert_eq!(r * r, DihedralElement::Id);
    }
    assert_eq!(TileType::from_repr(8), None);
    assert_eq!(TileType::Finish.name(), "Start/Finish");
    assert_eq!(TileType::Merge.name(), "Merge with yield sign");
    assert_eq!(TileType::LightTurns.reverse_trans(), DihedralElement::Id);
    assert_eq!(
        TileType::YieldIntersection.reverse_trans(),
        DihedralElement::Rot180
    );
}

#[test]
fn solve_data_keeps_the_best() {
    let a = SolveData {
        tiles: 10,
        turns: 30,
    };
    let b = SolveData {
        tiles: 12,
        turns: 20,
    };
    let c = a.combine(&b);
    assert_eq!((c.tiles, c.turns), (10, 20));
    let c = a.combine_option(&Some(b));
    assert_eq!((c.tiles, c.turns), (10, 20));
    let c = a.combine_option(&None);
    assert_eq!((c.tiles, c.turns), (10, 30));
}

#[test]
fn a_finish_line_put_elsewhere_takes_the_place_of_the_old_one() {
    let mut state = CourseEditState::from_course(Course::new());
    let first = Tile {
        tile_type: TileType::Finish,
        transform: DihedralElement::Flip45,
        offset: 1,
    };
    assert!(state.set(TileCoord(0, 0), first));
    assert!(state.set(TileCoord(3, 1), tile(TileType::Finish, DihedralElement::Rot90)));
    assert_eq!(state.get_finish(), Some(TileCoord(3, 1)));
    assert_eq!(
        state.course().get(&TileCoord(0, 0)),
        Some(Tile {
            tile_type: TileType::Straight,
            transform: DihedralElement::Flip45,
            offset: 1,
        })
    );
    assert_eq!(
        state.course().get(&TileCoord(3, 1)),
        Some(tile(TileType::Finish, DihedralElement::Rot90))
    );
    // turned where it lies, the one finish line stays
    assert!(state.set(TileCoord(3, 1), tile(TileType::Finish, DihedralElement::Rot180)));
    assert_eq!(state.get_finish(), Some(TileCoord(3, 1)));
    assert_eq!(
        state.course().get(&TileCoord(3, 1)),
        Some(tile(TileType::Finish, DihedralElement::Rot180))
    );
    assert_eq!(state.course().size(), 2);
}
