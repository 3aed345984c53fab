//! Tick-driven arcade engine: a block-stacking game, a snake game and a
//! robot-evasion game built over a shared fixed-size grid, a rotation
//! catalog for the falling pieces, and a persisted best-score table.

pub mod fields;
pub mod game;
pub mod imprint;
pub mod snake;
pub mod piece;
mod rng;
pub mod robots;
pub mod score_table;
pub mod tetris;

use vstd::prelude::*;

verus! {

/// Simulated frames per second; difficulty levels range over `0..FRAMERATE`.
pub const FRAMERATE: u32 = 20;

} // verus!
