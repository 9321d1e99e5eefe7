//! Tunable numbers of the game.
use vstd::prelude::*;

verus! {

/// Microradians turned per pixel of pointer motion.
pub const MOUSE_SENSITIVITY: i32 = 3000;

/// Trees planted at the start of a game.
pub const NUM_OF_TREES: u32 = 25;

/// Balls dropped at the start of a game.
pub const NUM_OF_BALLS: u32 = 4;

/// Witches spawned at the start of a game.
pub const NUM_OF_WITCHES: u32 = 1;

} // verus!
