//! The screens of the game, and which screen follows which.

use crate::input::Action;
use crate::states::SelectStatus;
use vstd::prelude::*;

verus! {

/// A screen of the game.
#[derive(Copy, Clone, PartialEq, Eq, Structural)]
pub enum ScreenKind {
    /// The levels to choose from.
    Select,
    /// The editor of a course.
    Edit,
    /// A race on a course.
    Race,
    /// The settings, shown over another screen.
    Settings,
    /// The dialog for a level of one's own.
    CustomSpec,
    Credits,
}

/// The screen of the credits, which holds nothing.
pub struct CreditsState;

/// What a screen came back with after it was shown once.
pub enum Outcome {
    /// The editor and the race: the action asked for by a button or a key, if any.
    Command(Option<Action>),
    /// The choice of levels: what was chosen.
    Choice(SelectStatus),
    /// The dialog for a level of one's own: the level was confirmed.
    Accepted,
    /// The dialog for a level of one's own: it was given up.
    Rejected,
    /// The settings and the credits: whether the screen was closed.
    Closed(bool),
    /// Nothing was decided.
    Waiting,
}

/// What is shown next.
#[derive(Copy, Clone, PartialEq, Eq, Structural)]
pub enum Transition {
    /// The same screen.
    Stay,
    /// The choice of levels.
    ToSelect,
    /// The editor, on the course of the level with this number.
    ToLevel(usize),
    /// The editor, on the course of the level that the dialog has made.
    ToNewLevel,
    /// The editor, on the course of the race and with its history.
    ToEdit,
    /// A race on the editor's course, which begins with this action.
    ToRace(Action),
    /// The settings, over the screen that was shown.
    ToSettings,
    /// The screen over which the settings were shown.
    Back,
    ToCustomSpec,
    ToCredits,
}

/// What follows the screen `screen` when it came back with `outcome`. An outcome that the
/// screen does not have changes nothing.
pub open spec fn spec_next_screen(screen: ScreenKind, outcome: Outcome) -> Transition {
    match (screen, outcome) {
        (ScreenKind::Edit, Outcome::Command(Some(action))) => if action == Action::Home {
            Transition::ToSelect
        } else if action.spec_can_start_sim() {
            Transition::ToRace(action)
        } else if action == Action::Settings {
            Transition::ToSettings
        } else {
            Transition::Stay
        },
        (ScreenKind::Race, Outcome::Command(Some(action))) => if action == Action::Home {
            Transition::ToSelect
        } else if action == Action::Edit {
            Transition::ToEdit
        } else if action == Action::Settings {
            Transition::ToSettings
        } else {
            Transition::Stay
        },
        (ScreenKind::Select, Outcome::Choice(status)) => match status {
            SelectStatus::Level(n) => Transition::ToLevel(n),
            SelectStatus::Custom => Transition::ToCustomSpec,
            SelectStatus::Settings => Transition::ToSettings,
            SelectStatus::Credits => Transition::ToCredits,
            SelectStatus::Idle => Transition::Stay,
        },
        (ScreenKind::Settings, Outcome::Closed(true)) => Transition::Back,
        (ScreenKind::CustomSpec, Outcome::Accepted) => Transition::ToNewLevel,
        (ScreenKind::CustomSpec, Outcome::Rejected) => Transition::ToSelect,
        (ScreenKind::Credits, Outcome::Closed(true)) => Transition::ToSelect,
        _ => Transition::Stay,
    }
}

/// What follows the screen `screen` when it came back with `outcome`.
#[verifier::when_used_as_spec(spec_next_screen)]
pub fn next_screen(screen: ScreenKind, outcome: Outcome) -> (r: Transition)
    ensures
        r == spec_next_screen(screen, outcome),
{
    match screen {
        ScreenKind::Edit => match outcome {
            Outcome::Command(Some(Action::Home)) => Transition::ToSelect,
            Outcome::Command(Some(Action::Settings)) => Transition::ToSettings,
            Outcome::Command(Some(action)) => if action.can_start_sim() {
                Transition::ToRace(action)
            } else {
                Transition::Stay
            },
            _ => Transition::Stay,
        },
        ScreenKind::Race => match outcome {
            Outcome::Command(Some(Action::Home)) => Transition::ToSelect,
            Outcome::Command(Some(Action::Edit)) => Transition::ToEdit,
            Outcome::Command(Some(Action::Settings)) => Transition::ToSettings,
            _ => Transition::Stay,
        },
        ScreenKind::Select => match outcome {
            Outcome::Choice(SelectStatus::Level(n)) => Transition::ToLevel(n),
            Outcome::Choice(SelectStatus::Custom) => Transition::ToCustomSpec,
            Outcome::Choice(SelectStatus::Settings) => Transition::ToSettings,
            Outcome::Choice(SelectStatus::Credits) => Transition::ToCredits,
            _ => Transition::Stay,
        },
        ScreenKind::Settings => match outcome {
            Outcome::Closed(true) => Transition::Back,
            _ => Transition::Stay,
        },
        ScreenKind::CustomSpec => match outcome {
            Outcome::Accepted => Transition::ToNewLevel,
            Outcome::Rejected => Transition::ToSelect,
            _ => Transition::Stay,
        },
        ScreenKind::Credits => match outcome {
            Outcome::Closed(true) => Transition::ToSelect,
            _ => Transition::Stay,
        },
    }
}

/// A race begins only from the editor, and only with the action that was asked for, which
/// is one that starts a race. The settings are left only for the screen under them, and are
/// never shown over themselves.
pub proof fn lemma_ways_between_screens(screen: ScreenKind, outcome: Outcome)
    ensures
        spec_next_screen(screen, outcome) matches Transition::ToRace(action) ==> screen
            == ScreenKind::Edit && action.spec_can_start_sim() && outcome == Outcome::Command(
            Some(action),
        ),
        spec_next_screen(screen, outcome) == Transition::ToSettings ==> screen
            != ScreenKind::Settings,
        spec_next_screen(screen, outcome) == Transition::Back <==> screen == ScreenKind::Settings
            && outcome == Outcome::Closed(true),
{
}

} // verus!
