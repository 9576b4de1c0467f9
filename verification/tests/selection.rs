use race::course::{Course, CourseEdit, TileCoord};
use race::direction::DihedralElement;
use race::selection::{drag_tiles, is_near, selection_rect, CellSet, DragData, DragState, SelectState};
use race::tile::{Tile, TileType};

fn tile(tile_type: TileType, transform: DihedralElement) -> Tile {
    Tile {
        tile_type,
        transform,
        offset: 0,
    }
}

fn row() -> Course {
    let mut course = Course::new();
    course.insert_mut(TileCoord(0, 0), tile(TileType::Straight, DihedralElement::Rot90));
    course.insert_mut(TileCoord(1, 0), tile(TileType::LightTurns, DihedralElement::Rot90));
    course.insert_mut(TileCoord(2, 0), tile(TileType::Finish, DihedralElement::Rot90));
    course.insert_mut(TileCoord(5, 5), tile(TileType::Turn, DihedralElement::Id));
    course
}

fn sorted(mut cells: Vec<TileCoord>) -> Vec<TileCoord> {
    cells.sort_by_key(|c| (c.0, c.1));
    cells
}

#[test]
fn cell_sets_hold_cells() {
    let mut set = CellSet::new();
    assert_eq!(set.len(), 0);
    assert!(set.insert(TileCoord(1, 2)));
    assert!(!set.insert(TileCoord(1, 2)));
    assert!(set.insert(TileCoord(2, 1)));
    assert!(set.contains(&TileCoord(1, 2)));
    assert!(!set.contains(&TileCoord(2, 2)));
    assert_eq!(set.len(), 2);
    assert_eq!(sorted(set.cells()), vec![TileCoord(1, 2), TileCoord(2, 1)]);
    set.clear();
    assert_eq!(set.len(), 0);
    assert!(set.cells().is_empty());
    assert_eq!(CellSet::default().len(), 0);
}

#[test]
fn rectangles_are_spanned_either_way() {
    let (xs, ys) = selection_rect(TileCoord(3, -1), TileCoord(-2, 4));
    assert_eq!(xs, -2..=3);
    assert_eq!(ys, -1..=4);
    let (xs, ys) = selection_rect(TileCoord(1, 1), TileCoord(1, 1));
    assert_eq!(xs, 1..=1);
    assert_eq!(ys, 1..=1);
}

#[test]
fn a_rectangle_selects_the_tiles_in_it() {
    let mut edit = CourseEdit::new(row());
    let mut sel = SelectState::default();
    sel.click(TileCoord(1, 1), false);
    assert!(matches!(sel.drag, DragState::Selecting(TileCoord(1, 1))));
    // a click while the pointer is busy does nothing
    sel.click(TileCoord(9, 9), false);
    assert!(matches!(sel.drag, DragState::Selecting(TileCoord(1, 1))));
    assert!(!sel.release(&mut edit, TileCoord(3, -1)));
    assert!(matches!(sel.drag, DragState::NoDrag));
    assert_eq!(sorted(sel.selection.cells()), vec![TileCoord(1, 0), TileCoord(2, 0)]);
    // with the shift key the selection grows
    sel.click(TileCoord(0, 0), true);
    sel.release(&mut edit, TileCoord(0, 0));
    assert_eq!(sel.selection.len(), 3);
    // without, on an empty cell, it starts again
    sel.click(TileCoord(4, 4), false);
    assert_eq!(sel.selection.len(), 0);
    sel.release(&mut edit, TileCoord(6, 6));
    assert_eq!(sel.selection.cells(), vec![TileCoord(5, 5)]);
    // a release without a click does nothing
    assert!(!sel.release(&mut edit, TileCoord(0, 0)));
    assert_eq!(sel.selection.len(), 1);
    sel.clear();
    assert_eq!(sel.selection.len(), 0);
}

#[test]
fn selected_tiles_are_changed_in_one_step() {
    let mut edit = CourseEdit::new(row());
    let mut sel = SelectState::default();
    sel.finish_rect(edit.get_course(), TileCoord(0, 0), TileCoord(1, 0));
    assert!(sel.toggle_lights(&mut edit));
    assert_eq!(edit.get(TileCoord(0, 0)).unwrap().offset, 1);
    assert_eq!(edit.get(TileCoord(1, 0)).unwrap().offset, 1);
    assert_eq!(edit.get(TileCoord(2, 0)).unwrap().offset, 0);
    assert!(sel.reverse_track(&mut edit));
    assert_eq!(
        edit.get(TileCoord(0, 0)).unwrap().transform,
        DihedralElement::Rot90 * DihedralElement::Flip90
    );
    // turns with lights stay as they are when reversed
    assert_eq!(
        edit.get(TileCoord(1, 0)).unwrap().transform,
        DihedralElement::Rot90
    );
    // two cells are selected: no turn
    assert!(!sel.apply_transform(&mut edit, DihedralElement::Rot90));
    assert!(edit.undo());
    assert!(edit.undo());
    assert_eq!(edit.get(TileCoord(0, 0)).unwrap().offset, 0);
    assert!(!edit.undo());
    let mut one = SelectState::default();
    one.finish_rect(edit.get_course(), TileCoord(5, 5), TileCoord(5, 5));
    assert!(one.apply_transform(&mut edit, DihedralElement::Rot180));
    assert_eq!(
        edit.get(TileCoord(5, 5)).unwrap().transform,
        DihedralElement::Rot180
    );
    // an empty selection changes nothing
    let mut none = SelectState::default();
    assert!(!none.toggle_lights(&mut edit));
    assert!(!none.delete(&mut edit));
}

#[test]
fn selected_tiles_are_deleted() {
    let mut edit = CourseEdit::new(row());
    assert_eq!(edit.get_finish(), Some(TileCoord(2, 0)));
    let mut sel = SelectState::default();
    sel.finish_rect(edit.get_course(), TileCoord(1, 0), TileCoord(9, 9));
    assert_eq!(sel.selection.len(), 3);
    assert!(sel.delete(&mut edit));
    assert_eq!(sel.selection.len(), 0);
    assert_eq!(edit.get_course().size(), 1);
    assert_eq!(edit.get_finish(), None);
    assert!(edit.undo());
    assert_eq!(edit.get_course().size(), 4);
    assert_eq!(edit.get_finish(), Some(TileCoord(2, 0)));
}

#[test]
fn selected_tiles_are_dragged() {
    let mut edit = CourseEdit::new(row());
    let mut sel = SelectState::default();
    sel.finish_rect(edit.get_course(), TileCoord(0, 0), TileCoord(1, 0));
    sel.click(TileCoord(0, 0), false);
    assert!(matches!(sel.drag, DragState::Dragging(_)));
    // while dragging, the changes are noted with the drag
    assert!(!sel.apply_transform(&mut edit, DihedralElement::Rot90));
    assert!(!sel.toggle_lights(&mut edit));
    match &sel.drag {
        DragState::Dragging(d) => {
            assert_eq!(d.anchor, TileCoord(0, 0));
            assert_eq!(d.transform, DihedralElement::Rot90);
            assert!(d.toggle_lights);
            assert!(!d.reverse);
            let mut items = drag_tiles(&sel.selection, d, edit.get_course(), TileCoord(5, 4));
            items.sort_by_key(|(c, _)| (c.0, c.1));
            assert_eq!(
                items,
                vec![
                    (
                        TileCoord(5, 4),
                        Tile {
                            tile_type: TileType::Straight,
                            transform: DihedralElement::Rot180,
                            offset: 1
                        }
                    ),
                    (
                        TileCoord(5, 5),
                        Tile {
                            tile_type: TileType::LightTurns,
                            transform: DihedralElement::Rot180,
                            offset: 1
                        }
                    ),
                ]
            );
        }
        _ => panic!("expected a drag"),
    }
    assert!(sel.release(&mut edit, TileCoord(5, 4)));
    assert!(matches!(sel.drag, DragState::NoDrag));
    assert_eq!(sorted(sel.selection.cells()), vec![TileCoord(5, 4), TileCoord(5, 5)]);
    assert_eq!(edit.get(TileCoord(0, 0)), None);
    assert_eq!(edit.get(TileCoord(1, 0)), None);
    assert_eq!(
        edit.get(TileCoord(5, 5)).unwrap().tile_type,
        TileType::LightTurns
    );
    assert_eq!(edit.get(TileCoord(5, 4)).unwrap().tile_type, TileType::Straight);
    assert_eq!(edit.get_course().size(), 3);
    // the drag was one step
    assert!(edit.undo());
    assert_eq!(edit.get_course().size(), 4);
    assert!(!edit.undo());
}

#[test]
fn a_drag_by_one_cell_keeps_the_cells_in_between() {
    let mut edit = CourseEdit::new(row());
    let mut sel = SelectState::default();
    sel.finish_rect(edit.get_course(), TileCoord(0, 0), TileCoord(1, 0));
    sel.click(TileCoord(0, 0), false);
    assert!(sel.release(&mut edit, TileCoord(1, 0)));
    assert_eq!(edit.get(TileCoord(0, 0)), None);
    assert_eq!(
        edit.get(TileCoord(1, 0)).unwrap().tile_type,
        TileType::Straight
    );
    assert_eq!(
        edit.get(TileCoord(2, 0)).unwrap().tile_type,
        TileType::LightTurns
    );
    assert_eq!(edit.get_finish(), None);
    assert_eq!(sorted(sel.selection.cells()), vec![TileCoord(1, 0), TileCoord(2, 0)]);
}

#[test]
fn a_course_is_dragged_in() {
    let mut edit = CourseEdit::new(Course::new());
    let mut sel = SelectState::load_external(row(), TileCoord(2, 0));
    assert!(sel.reverse_track(&mut edit) == false);
    match &sel.drag {
        DragState::Dragging(DragData { reverse, external, .. }) => {
            assert!(*reverse);
            assert_eq!(external.as_ref().unwrap().size(), 4);
        }
        _ => panic!("expected a drag"),
    }
    sel.reverse_track(&mut edit);
    assert!(sel.release(&mut edit, TileCoord(12, 10)));
    assert_eq!(edit.get_course().size(), 4);
    assert_eq!(
        edit.get(TileCoord(10, 10)),
        Some(tile(TileType::Straight, DihedralElement::Rot90))
    );
    assert_eq!(edit.get_finish(), Some(TileCoord(12, 10)));
    assert_eq!(sel.selection.len(), 4);
    assert!(is_near(TileCoord(12, 10)));
    assert!(!is_near(TileCoord(isize::MAX / 4 + 1, 0)));
    assert!(is_near(TileCoord(-(isize::MAX / 4), isize::MAX / 4)));
}
