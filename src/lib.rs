//! Packs equally sized icons into one grid-shaped RGBA sprite sheet and
//! describes where each icon landed.

pub mod emit;
pub mod grid;
pub mod layout;
pub mod naming;
