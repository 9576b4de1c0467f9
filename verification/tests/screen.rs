use race::direction::Direction;
use race::input::Action;
use race::states::SelectStatus;
use race::tile::TileType;
use race::ui::screen::{next_screen, Outcome, ScreenKind, Transition};

#[test]
fn editor_leads_to_the_race_and_back() {
    for action in [Action::StepForward, Action::Play, Action::FastForward] {
        assert!(
            next_screen(ScreenKind::Edit, Outcome::Command(Some(action)))
                == Transition::ToRace(action)
        );
        assert!(
            next_screen(ScreenKind::Race, Outcome::Command(Some(action))) == Transition::Stay
        );
    }
    assert!(
        next_screen(ScreenKind::Race, Outcome::Command(Some(Action::Edit))) == Transition::ToEdit
    );
    assert!(
        next_screen(ScreenKind::Edit, Outcome::Command(Some(Action::Edit))) == Transition::Stay
    );
    for screen in [ScreenKind::Edit, ScreenKind::Race] {
        assert!(
            next_screen(screen, Outcome::Command(Some(Action::Home))) == Transition::ToSelect
        );
        assert!(
            next_screen(screen, Outcome::Command(Some(Action::Settings)))
                == Transition::ToSettings
        );
        assert!(next_screen(screen, Outcome::Command(None)) == Transition::Stay);
        for action in [
            Action::Undo,
            Action::Pause,
            Action::Seek(3),
            Action::Scroll(Direction::Up),
            Action::SelectTile(TileType::Merge),
        ] {
            assert!(next_screen(screen, Outcome::Command(Some(action))) == Transition::Stay);
        }
    }
}

#[test]
fn choice_of_levels_leads_everywhere() {
    let from = |status| next_screen(ScreenKind::Select, Outcome::Choice(status));
    assert!(from(SelectStatus::Level(4)) == Transition::ToLevel(4));
    assert!(from(SelectStatus::Custom) == Transition::ToCustomSpec);
    assert!(from(SelectStatus::Settings) == Transition::ToSettings);
    assert!(from(SelectStatus::Credits) == Transition::ToCredits);
    assert!(from(SelectStatus::Idle) == Transition::Stay);
}

#[test]
fn dialogs_close() {
    assert!(next_screen(ScreenKind::Settings, Outcome::Closed(true)) == Transition::Back);
    assert!(next_screen(ScreenKind::Settings, Outcome::Closed(false)) == Transition::Stay);
    assert!(next_screen(ScreenKind::Credits, Outcome::Closed(true)) == Transition::ToSelect);
    assert!(next_screen(ScreenKind::Credits, Outcome::Closed(false)) == Transition::Stay);
    assert!(next_screen(ScreenKind::CustomSpec, Outcome::Accepted) == Transition::ToNewLevel);
    assert!(next_screen(ScreenKind::CustomSpec, Outcome::Rejected) == Transition::ToSelect);
    assert!(next_screen(ScreenKind::CustomSpec, Outcome::Waiting) == Transition::Stay);
}

#[test]
fn an_outcome_of_another_screen_changes_nothing() {
    assert!(next_screen(ScreenKind::Select, Outcome::Closed(true)) == Transition::Stay);
    assert!(next_screen(ScreenKind::Edit, Outcome::Accepted) == Transition::Stay);
    assert!(
        next_screen(ScreenKind::Credits, Outcome::Command(Some(Action::Play)))
            == Transition::Stay
    );
    assert!(
        next_screen(ScreenKind::Settings, Outcome::Choice(SelectStatus::Credits))
            == Transition::Stay
    );
}
