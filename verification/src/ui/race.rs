//! The playback panel: which of its buttons can be pressed, and which are held down.

use crate::playback::Playback;
use vstd::prelude::*;

verus! {

/// What the playback panel shows.
#[derive(Copy, Clone)]
pub enum PlaybackPanelState {
    /// The course is edited; a race can start if the flag holds.
    Editing(bool),
    /// A race is shown: the speed, the round shown, and the number of rounds on record.
    Viewing(Playback, usize, usize),
}

impl PlaybackPanelState {
    /// Whether the course is edited.
    pub fn editing(&self) -> (r: bool)
        ensures
            r == (*self is Editing),
    {
        match self {
            PlaybackPanelState::Editing(_) => true,
            _ => false,
        }
    }

    /// Whether a race is shown.
    pub fn viewing(&self) -> (r: bool)
        ensures
            r == (*self is Viewing),
    {
        !self.editing()
    }

    /// Whether the play button is held down: a race plays at normal speed.
    pub fn play_pressed(&self) -> (r: bool)
        ensures
            r == (*self matches PlaybackPanelState::Viewing(p, _, _) && p == Playback::Playing),
    {
        match self {
            PlaybackPanelState::Viewing(Playback::Playing, _, _) => true,
            _ => false,
        }
    }

    /// Whether the pause button is held down: a race is paused.
    pub fn pause_pressed(&self) -> (r: bool)
        ensures
            r == (*self matches PlaybackPanelState::Viewing(p, _, _) && p == Playback::Paused),
    {
        match self {
            PlaybackPanelState::Viewing(Playback::Paused, _, _) => true,
            _ => false,
        }
    }

    /// Whether the pause button can be pressed: a race is shown and not paused.
    pub fn pause_enabled(&self) -> (r: bool)
        ensures
            r == (*self matches PlaybackPanelState::Viewing(p, _, _) && p != Playback::Paused),
    {
        match self {
            PlaybackPanelState::Viewing(p, _, _) => *p != Playback::Paused,
            _ => false,
        }
    }

    /// Whether the buttons that move forward can be pressed: the course can be raced, or the
    /// round shown is not the last on record.
    pub fn play_enabled(&self) -> (r: bool)
        requires
            *self matches PlaybackPanelState::Viewing(_, _, m) ==> m >= 1,
        ensures
            r == (match *self {
                PlaybackPanelState::Editing(ready) => ready,
                PlaybackPanelState::Viewing(_, round, m) => round < m - 1,
            }),
    {
        match self {
            PlaybackPanelState::Editing(ready) => *ready,
            PlaybackPanelState::Viewing(_, r, m) => *r < *m - 1,
        }
    }

    /// Whether the buttons that move backward can be pressed: a race is shown, past its
    /// start.
    pub fn back_enabled(&self) -> (r: bool)
        ensures
            r == (*self matches PlaybackPanelState::Viewing(_, round, _) && round > 0),
    {
        match self {
            PlaybackPanelState::Viewing(_, r, _) => *r > 0,
            _ => false,
        }
    }
}

} // verus!
