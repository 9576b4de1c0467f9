//! The actions that a player can take.

use crate::direction::Direction;
use crate::tile::TileType;
use vstd::prelude::*;

verus! {

/// Something that a player can ask for, by a key or by a button.
#[derive(Copy, Clone, PartialEq, Eq, Structural, Debug, Hash)]
pub enum Action {
    RotCW,
    RotCCW,
    Flip,
    ToggleLights,
    Reverse,
    SelectModify,
    SelectErase,
    SelectPath,
    SelectTile(TileType),
    Scroll(Direction),
    Undo,
    Redo,
    Delete,
    Home,
    Settings,
    Keys,
    Copy,
    Edit,
    Start,
    StepBack,
    Pause,
    StepForward,
    Play,
    FastForward,
    End,
    Seek(usize),
}

impl Action {
    pub open spec fn spec_name(self) -> Seq<char> {
        match self {
            Action::RotCW => "Rotate clockwise"@,
            Action::RotCCW => "Rotate counterclockwise"@,
            Action::Flip => "Flip"@,
            Action::ToggleLights => "Toggle lights"@,
            Action::Reverse => "Reverse"@,
            Action::SelectModify => "Select/Move"@,
            Action::SelectPath => "Draw paths"@,
            Action::SelectErase => "Clear"@,
            Action::SelectTile(t) => t.spec_name(),
            Action::Scroll(d) => d.spec_name(),
            Action::Undo => "Undo"@,
            Action::Redo => "Redo"@,
            Action::Delete => "Delete"@,
            Action::Home => "Select level"@,
            Action::Settings => "Settings"@,
            Action::Keys => "Show/hide keyboard commands"@,
            Action::Copy => "Copy another level"@,
            Action::Edit => "Edit course"@,
            Action::Start => "Seek to start"@,
            Action::StepBack => "Step backward"@,
            Action::Pause => "Pause"@,
            Action::StepForward => "Step forward"@,
            Action::Play => "Play"@,
            Action::FastForward => "Fast forward"@,
            Action::End => "Seek to end"@,
            Action::Seek(_) => "Seek"@,
        }
    }

    pub open spec fn spec_is_active_when_racing(&self) -> bool {
        *self is Scroll || *self == Action::Start || *self == Action::StepBack || *self
            == Action::Pause || *self == Action::StepForward || *self == Action::Play || *self
            == Action::FastForward || *self == Action::End
    }

    pub open spec fn spec_is_active_when_editing(&self) -> bool {
        !(*self == Action::Start || *self == Action::StepBack || *self == Action::Pause || *self
            == Action::End)
    }

    pub open spec fn spec_can_start_sim(&self) -> bool {
        *self == Action::StepForward || *self == Action::Play || *self == Action::FastForward
    }

    /// What the action is called in the list of keys and on the buttons.
    pub fn name(&self) -> (r: &'static str)
        ensures
            r@ == self.spec_name(),
    {
        match self {
            Action::RotCW => "Rotate clockwise",
            Action::RotCCW => "Rotate counterclockwise",
            Action::Flip => "Flip",
            Action::ToggleLights => "Toggle lights",
            Action::Reverse => "Reverse",
            Action::SelectModify => "Select/Move",
            Action::SelectPath => "Draw paths",
            Action::SelectErase => "Clear",
            Action::SelectTile(t) => t.name(),
            Action::Scroll(d) => d.name(),
            Action::Undo => "Undo",
            Action::Redo => "Redo",
            Action::Delete => "Delete",
            Action::Home => "Select level",
            Action::Settings => "Settings",
            Action::Keys => "Show/hide keyboard commands",
            Action::Copy => "Copy another level",
            Action::Edit => "Edit course",
            Action::Start => "Seek to start",
            Action::StepBack => "Step backward",
            Action::Pause => "Pause",
            Action::StepForward => "Step forward",
            Action::Play => "Play",
            Action::FastForward => "Fast forward",
            Action::End => "Seek to end",
            Action::Seek(_) => "Seek",
        }
    }

    /// Whether the action can be taken while a race is shown: scrolling and the playback
    /// controls.
    #[verifier::when_used_as_spec(spec_is_active_when_racing)]
    pub fn is_active_when_racing(&self) -> (r: bool)
        ensures
            r == self.spec_is_active_when_racing(),
    {
        match self {
            Action::Scroll(_)
            | Action::Start
            | Action::StepBack
            | Action::Pause
            | Action::StepForward
            | Action::Play
            | Action::FastForward
            | Action::End => true,
            _ => false,
        }
    }

    /// Whether the action can be taken while the course is edited: all but the playback
    /// controls that need a race under way.
    #[verifier::when_used_as_spec(spec_is_active_when_editing)]
    pub fn is_active_when_editing(&self) -> (r: bool)
        ensures
            r == self.spec_is_active_when_editing(),
    {
        match self {
            Action::Start | Action::StepBack | Action::Pause | Action::End => false,
            _ => true,
        }
    }

    /// Whether the action starts a race from the editor.
    #[verifier::when_used_as_spec(spec_can_start_sim)]
    pub fn can_start_sim(&self) -> (r: bool)
        ensures
            r == self.spec_can_start_sim(),
    {
        match self {
            Action::StepForward | Action::Play | Action::FastForward => true,
            _ => false,
        }
    }
}

} // verus!
