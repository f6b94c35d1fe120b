use crate::tile::Tile;
use vstd::prelude::*;

verus! {

/// Encapsulates a move in tic-tac-toe: a zero-based coordinate pair and the
/// mark being placed. `x` indexes columns (left to right), `y` indexes rows
/// (top to bottom).
#[derive(Clone, Copy, PartialEq, Eq, Structural, Debug)]
pub struct Turn {
    pub x: usize,
    pub y: usize,
    pub tile: Tile,
}

impl Turn {
    /// Creates a new instance of turn, setting x, y, and tile.
    pub fn new(x: usize, y: usize, tile: Tile) -> (t: Turn)
        ensures
            t == (Turn { x, y, tile }),
    {
        Turn { x, y, tile }
    }
}

} // verus!
