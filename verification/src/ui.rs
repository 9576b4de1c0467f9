//! What the screens decide, apart from how they are drawn.

pub mod race;
pub mod screen;
