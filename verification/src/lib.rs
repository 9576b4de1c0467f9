//! A grid-based traffic simulator for a track-building game.
//!
//! Players place road tiles on a grid; a discrete-time simulator advances cars
//! through the resulting network and a tracker judges the finishing order.

pub mod combine;
pub mod course;
pub mod direction;
pub mod input;
pub mod level;
pub mod path;
pub mod playback;
pub mod round;
pub mod save;
pub mod selection;
mod runner;
pub mod simulator;
pub mod states;
pub mod tile;
pub mod tooltip;
pub mod tracker;
pub mod ui;
