//! Board dimensions and positions on the board.

use vstd::prelude::*;

verus! {

/// Number of rows of the board.
pub const H: usize = 3;

/// Number of columns of the board.
pub const W: usize = 4;

/// Number of turns after which the game is over.
pub const END_TURN: usize = 4;

/// A position on the board: column `x`, row `y`.
#[derive(Clone, Copy, Debug, PartialEq, Eq, Structural)]
pub struct Coord {
    pub x: usize,
    pub y: usize,
}

impl Coord {
    /// The position at column `x`, row `y`.
    pub fn new(x: usize, y: usize) -> (c: Coord)
        ensures
            c.x == x,
            c.y == y,
    {
        Coord { x, y }
    }

    /// Whether the position lies on the board.
    pub open spec fn in_bounds(self) -> bool {
        self.x < W && self.y < H
    }
}

} // verus!
