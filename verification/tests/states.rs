use race::course::{Course, CourseEdit, TileCoord};
use race::direction::{DihedralElement, Direction};
use race::input::Action;
use race::level::{BannedTiles, LevelData};
use race::path::Path;
use race::playback::Playback;
use race::selection::DragState;
use race::simulator::{CarCoord, CarData};
use race::states::{
    CustomSpecState, EditEffect, EditState, RaceEndStatus, RaceState, TrackSelection,
};
use race::tile::{Tile, TileType};
use race::ui::race::PlaybackPanelState;
use std::time::Duration;

fn tile(tile_type: TileType, transform: DihedralElement) -> Tile {
    Tile {
        tile_type,
        transform,
        offset: 0,
    }
}

fn level(cars: usize, finish: Vec<usize>) -> LevelData {
    LevelData {
        name: "Test".to_string(),
        cars,
        finish,
        tutorial: None,
        banned: BannedTiles::new(),
    }
}

fn ring_through_finish() -> Course {
    let mut course = Course::new();
    for (x, y, t, e) in [
        (0, 0, TileType::Turn, DihedralElement::Rot270),
        (1, 0, TileType::Straight, DihedralElement::Rot270),
        (2, 0, TileType::Turn, DihedralElement::Id),
        (2, 1, TileType::Turn, DihedralElement::Rot90),
        (1, 1, TileType::Finish, DihedralElement::Rot90),
        (0, 1, TileType::Turn, DihedralElement::Rot180),
    ] {
        course.insert_mut(TileCoord(x, y), tile(t, e));
    }
    course
}

fn custom(cars: usize, finish: &str) -> CustomSpecState {
    let mut s = CustomSpecState::new();
    s.cars = cars;
    s.finish = finish.to_string();
    s.check_finish();
    s
}

#[test]
fn finishing_orders_are_read_from_text() {
    let s = CustomSpecState::new();
    assert_eq!(s.cars, 0);
    assert_eq!(s.finish, "");
    assert!(s.finish_is_valid);
    assert_eq!(s.get_finish(), Some(vec![]));
    assert!(CustomSpecState::default().finish_is_valid);

    let s = custom(3, "0 1 2");
    assert!(s.finish_is_valid);
    assert_eq!(s.get_finish(), Some(vec![0, 1, 2]));

    let s = custom(3, "2,0");
    assert!(s.finish_is_valid);
    assert_eq!(s.get_finish(), Some(vec![2, 0]));

    // anything but digits separates numbers
    let s = custom(23, "a1b22c");
    assert_eq!(s.get_finish(), Some(vec![1, 22]));
    let s = custom(8, "first 007, then -3");
    assert_eq!(s.get_finish(), Some(vec![7, 3]));
    let s = custom(8, "12");
    assert!(!s.finish_is_valid);
    let s = custom(13, "12");
    assert_eq!(s.get_finish(), Some(vec![12]));
}

#[test]
fn bad_finishing_orders_are_refused() {
    // a number twice
    let s = custom(3, "0 0");
    assert!(!s.finish_is_valid);
    assert_eq!(s.get_finish(), None);
    assert_eq!(
        CustomSpecState::parse_finish(3, "0 0 1"),
        vec![Some(0), None, Some(1)]
    );
    // no such car
    let s = custom(3, "3");
    assert!(!s.finish_is_valid);
    assert_eq!(s.get_finish(), None);
    assert_eq!(
        CustomSpecState::parse_finish(3, "1 3 2 1"),
        vec![Some(1), None, Some(2), None]
    );
    // no car at all
    let s = custom(0, "0");
    assert!(!s.finish_is_valid);
    // a number beyond all machine numbers
    let s = custom(1000, "99999999999999999999999999999999999999999");
    assert!(!s.finish_is_valid);
    assert_eq!(
        CustomSpecState::parse_finish(1000, "340282366920938463463374607431768211456 5"),
        vec![None, Some(5)]
    );
    assert_eq!(
        CustomSpecState::parse_finish(1000, "18446744073709551616 18446744073709551615 999"),
        vec![None, None, Some(999)]
    );
    let s = custom(1000, "0000000000000000000000000000000000000000999");
    assert_eq!(s.get_finish(), Some(vec![999]));
    // digits of other scripts are no digits
    assert_eq!(CustomSpecState::parse_finish(5, "٣ 4"), vec![Some(4)]);
}

#[test]
fn tools_are_taken_up() {
    let mut tool = TrackSelection::default();
    assert!(matches!(tool, TrackSelection::Modify(_)));
    assert_eq!(tool.tile_type(), None);
    assert!(tool.is_action_selected(&Action::SelectModify));
    assert!(!tool.is_action_selected(&Action::SelectErase));
    tool.select(TileType::Merge);
    assert_eq!(tool.tile_type(), Some(TileType::Merge));
    assert!(tool.is_action_selected(&Action::SelectTile(TileType::Merge)));
    assert!(!tool.is_action_selected(&Action::SelectTile(TileType::Turn)));
    if let TrackSelection::Draw(t) = &mut tool {
        t.transform = DihedralElement::Rot90;
    }
    // the tool in use is not taken up again
    tool.select(TileType::Merge);
    assert!(matches!(tool, TrackSelection::Draw(t) if t.transform == DihedralElement::Rot90));
    tool.select(TileType::Turn);
    assert!(matches!(tool, TrackSelection::Draw(t) if t == tile(TileType::Turn, DihedralElement::Id)));
    assert!(TrackSelection::Erase.is_action_selected(&Action::SelectErase));
    assert!(TrackSelection::Path(Path::new()).is_action_selected(&Action::SelectPath));
    let mut tool = TrackSelection::default();
    if let TrackSelection::Modify(sel) = &mut tool {
        sel.selection.insert(TileCoord(1, 1));
        sel.drag = DragState::Selecting(TileCoord(0, 0));
    }
    tool.reset_selection();
    match tool {
        TrackSelection::Modify(sel) => {
            assert_eq!(sel.selection.len(), 0);
            assert!(matches!(sel.drag, DragState::NoDrag));
        }
        _ => panic!("expected the selecting tool"),
    }
}

#[test]
fn actions_have_names_and_times() {
    assert_eq!(Action::RotCW.name(), "Rotate clockwise");
    assert_eq!(Action::SelectTile(TileType::Finish).name(), "Start/Finish");
    assert_eq!(Action::Scroll(Direction::Left).name(), "Left");
    assert_eq!(Action::Seek(7).name(), "Seek");
    assert_eq!(Action::Keys.name(), "Show/hide keyboard commands");
    assert!(Action::Scroll(Direction::Up).is_active_when_racing());
    assert!(Action::Pause.is_active_when_racing());
    assert!(!Action::Undo.is_active_when_racing());
    assert!(!Action::Seek(0).is_active_when_racing());
    assert!(Action::Undo.is_active_when_editing());
    assert!(Action::Play.is_active_when_editing());
    assert!(!Action::Pause.is_active_when_editing());
    assert!(!Action::End.is_active_when_editing());
    assert!(Action::Play.can_start_sim());
    assert!(Action::StepForward.can_start_sim());
    assert!(Action::FastForward.can_start_sim());
    assert!(!Action::Pause.can_start_sim());
}

#[test]
fn playback_panel_buttons() {
    let editing = PlaybackPanelState::Editing(true);
    assert!(editing.editing());
    assert!(!editing.viewing());
    assert!(editing.play_enabled());
    assert!(!PlaybackPanelState::Editing(false).play_enabled());
    assert!(!editing.pause_enabled());
    assert!(!editing.back_enabled());
    assert!(!editing.play_pressed());
    let playing = PlaybackPanelState::Viewing(Playback::Playing, 2, 5);
    assert!(playing.viewing());
    assert!(playing.play_pressed());
    assert!(!playing.pause_pressed());
    assert!(playing.pause_enabled());
    assert!(playing.play_enabled());
    assert!(playing.back_enabled());
    let at_end = PlaybackPanelState::Viewing(Playback::Paused, 4, 5);
    assert!(at_end.pause_pressed());
    assert!(!at_end.pause_enabled());
    assert!(!at_end.play_enabled());
    let at_start = PlaybackPanelState::Viewing(Playback::Fast, 0, 5);
    assert!(!at_start.back_enabled());
    assert!(at_start.pause_enabled());
}

#[test]
fn editor_places_and_clears_tiles() {
    let mut state = EditState::new_with_course(level(1, vec![0]), Course::new());
    assert!(matches!(state.track_selection, TrackSelection::Modify(_)));
    let a = tile(TileType::Straight, DihedralElement::Id);
    assert!(state.set_tile(TileCoord(0, 0), a));
    assert!(!state.set_tile(TileCoord(0, 0), a));
    assert!(state.set_tile(TileCoord(1, 0), a));
    assert!(state.remove_tile(TileCoord(0, 0)));
    assert!(!state.remove_tile(TileCoord(0, 0)));
    assert_eq!(state.course.get_course().size(), 1);
    assert!(state.process_action(Action::Undo) == EditEffect::CourseChanged);
    assert_eq!(state.course.get_course().size(), 2);
    assert!(state.process_action(Action::Redo) == EditEffect::CourseChanged);
    assert!(state.process_action(Action::Redo) == EditEffect::Nothing);
    assert_eq!(state.course.get_course().size(), 1);
    assert!(state.process_action(Action::Scroll(Direction::Left)) == EditEffect::Scroll(Direction::Left));
    assert!(state.process_action(Action::Home) == EditEffect::Nothing);
}

#[test]
fn editor_changes_the_tile_to_be_placed() {
    let mut state = EditState::new_with_course(level(1, vec![0]), Course::new());
    state.process_action(Action::SelectTile(TileType::LightTurns));
    state.process_action(Action::RotCW);
    state.process_action(Action::RotCW);
    state.process_action(Action::Flip);
    state.process_action(Action::ToggleLights);
    state.process_action(Action::Delete);
    match state.track_selection {
        TrackSelection::Draw(t) => {
            assert_eq!(t.tile_type, TileType::LightTurns);
            assert_eq!(
                t.transform,
                DihedralElement::Flip0 * DihedralElement::Rot180
            );
            assert_eq!(t.offset, 1);
        }
        _ => panic!("expected the placing tool"),
    }
    state.process_action(Action::RotCCW);
    assert!(matches!(
        state.track_selection,
        TrackSelection::Draw(t) if t.transform == DihedralElement::Rot270 * DihedralElement::Flip90
    ));
    state.process_action(Action::SelectErase);
    assert!(matches!(state.track_selection, TrackSelection::Erase));
    assert!(state.process_action(Action::RotCW) == EditEffect::Nothing);
    state.process_action(Action::SelectPath);
    assert!(matches!(state.track_selection, TrackSelection::Path(_)));
    state.process_action(Action::SelectModify);
    assert!(matches!(state.track_selection, TrackSelection::Modify(_)));
}

#[test]
fn editor_changes_the_selection() {
    let mut course = Course::new();
    course.insert_mut(TileCoord(0, 0), tile(TileType::LightTurns, DihedralElement::Id));
    course.insert_mut(TileCoord(1, 0), tile(TileType::Turn, DihedralElement::Id));
    let mut state = EditState::new_with_course(level(1, vec![0]), course);
    if let TrackSelection::Modify(sel) = &mut state.track_selection {
        sel.selection.insert(TileCoord(0, 0));
    }
    assert!(state.process_action(Action::RotCW) == EditEffect::CourseChanged);
    assert!(state.process_action(Action::ToggleLights) == EditEffect::CourseChanged);
    assert_eq!(
        state.course.get(TileCoord(0, 0)),
        Some(Tile {
            tile_type: TileType::LightTurns,
            transform: DihedralElement::Rot90,
            offset: 1
        })
    );
    assert_eq!(
        state.course.get(TileCoord(1, 0)),
        Some(tile(TileType::Turn, DihedralElement::Id))
    );
    assert!(state.process_action(Action::Delete) == EditEffect::CourseChanged);
    assert_eq!(state.course.get(TileCoord(0, 0)), None);
    // nothing is selected any more
    assert!(state.process_action(Action::Delete) == EditEffect::Nothing);
    assert!(state.process_action(Action::Undo) == EditEffect::CourseChanged);
    assert!(state.course.get(TileCoord(0, 0)).is_some());
}

#[test]
fn race_is_run_round_by_round() {
    let edit = CourseEdit::new(ring_through_finish());
    let mut race = RaceState::new(level(1, vec![0]), edit);
    assert_eq!(race.rounds_available(), 1);
    assert!(!race.is_finished());
    assert!(race.get_cars().is_empty());
    assert_eq!(race.get_course().size(), 6);
    race.process_command(Action::StepForward, Duration::from_millis(10));
    assert_eq!(race.round, 1);
    assert!(race.playback == Playback::Paused);
    assert_eq!(race.rounds_available(), 2);
    assert_eq!(
        race.get_cars(),
        &vec![CarData {
            id: 0,
            pos: CarCoord(3, 2),
            dir: Direction::Right
        }]
    );
    assert_eq!(race.animations.len(), 1);
    assert_eq!(race.animations[0].id, 0);
    assert!(race.animations[0].old_pos.is_none());
    race.process_command(Action::StepForward, Duration::from_millis(20));
    assert_eq!(race.animations.len(), 1);
    assert_eq!(race.animations[0].old_pos.unwrap().pos, CarCoord(3, 2));
    assert_eq!(race.animations[0].new_pos.pos, CarCoord(4, 1));
    race.process_command(Action::StepBack, Duration::from_millis(30));
    assert_eq!(race.round, 1);
    assert!(race.animations.is_empty());
    // a step forward to a round on record runs no round
    race.process_command(Action::StepForward, Duration::from_millis(40));
    assert_eq!(race.round, 2);
    assert_eq!(race.rounds_available(), 3);
    race.process_command(Action::Start, Duration::from_millis(50));
    assert_eq!(race.round, 0);
    race.process_command(Action::Seek(2), Duration::from_millis(60));
    assert_eq!(race.round, 2);
    race.process_command(Action::Keys, Duration::from_millis(70));
    assert!(race.show_keys);
    race.process_command(Action::Home, Duration::from_millis(80));
    assert_eq!(race.round, 2);
}

#[test]
fn race_plays_by_the_clock_and_ends() {
    let edit = CourseEdit::new(ring_through_finish());
    let mut race = RaceState::new(level(1, vec![0]), edit);
    race.check_advance(Duration::from_millis(1000));
    assert_eq!(race.round, 0);
    race.process_command(Action::Play, Duration::from_millis(1000));
    assert!(race.playback == Playback::Playing);
    race.check_advance(Duration::from_millis(1499));
    assert_eq!(race.round, 0);
    race.check_advance(Duration::from_millis(1500));
    assert_eq!(race.round, 1);
    race.check_advance(Duration::from_millis(1600));
    assert_eq!(race.round, 1);
    race.process_command(Action::FastForward, Duration::from_millis(1600));
    race.check_advance(Duration::from_millis(1700));
    assert_eq!(race.round, 2);
    assert_eq!(race.check_finished().map(|d| d.turns), None);
    assert!(race.status == RaceEndStatus::Simulating);
    let mut now = 1700;
    while !race.is_at_end() {
        now += 100;
        race.check_advance(Duration::from_millis(now));
    }
    assert_eq!(race.round, 6);
    assert!(race.playback == Playback::Paused);
    assert!(race.is_finished());
    let solved = race.check_finished().unwrap();
    assert_eq!((solved.tiles, solved.turns), (6, 6));
    assert!(race.status == RaceEndStatus::PopupQueued);
    assert_eq!(race.tracker.get_crashes(), &vec![false]);
    // at the end nothing moves on
    race.process_command(Action::StepForward, Duration::from_millis(now + 100));
    assert_eq!(race.round, 6);
    assert_eq!(race.rounds_available(), 7);
    race.process_command(Action::End, Duration::from_millis(now + 200));
    assert_eq!(race.round, 6);
}

#[test]
fn race_with_the_wrong_order_is_not_solved() {
    let edit = CourseEdit::new(ring_through_finish());
    let mut race = RaceState::new(level(2, vec![1, 0]), edit);
    race.process_command(Action::Play, Duration::from_millis(0));
    let mut now = 0;
    while !race.is_at_end() {
        now += 500;
        race.check_advance(Duration::from_millis(now));
    }
    assert_eq!(race.tracker.get_finishes(), &vec![0, 1]);
    assert!(race.check_finished().is_none());
    assert!(race.status == RaceEndStatus::Finished);
    assert_eq!(race.solve_data().turns, 7);
}
