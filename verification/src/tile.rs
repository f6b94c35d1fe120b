use vstd::prelude::*;

verus! {

/// Contains all valid tile types for tic-tac-toe: an empty cell, or a cell
/// owned by one of the two players.
#[derive(Clone, Copy, PartialEq, Eq, Structural, Debug)]
pub enum Tile {
    Empty,
    O,
    X,
}

impl Tile {
    /// Converts a boolean to O if true and X otherwise.
    pub fn from_bool(is_o: bool) -> (t: Tile)
        ensures
            t == (if is_o {
                Tile::O
            } else {
                Tile::X
            }),
    {
        if is_o {
            Tile::O
        } else {
            Tile::X
        }
    }

    /// The single character that renders this tile in the textual board.
    pub open spec fn spec_char(self) -> char {
        match self {
            Tile::Empty => '_',
            Tile::O => 'O',
            Tile::X => 'X',
        }
    }

    /// The one-character string slice that renders this tile.
    pub fn as_str(&self) -> (s: &'static str)
        ensures
            s@ == seq![self.spec_char()],
    {
        proof {
            reveal_strlit("_");
            reveal_strlit("O");
            reveal_strlit("X");
        }
        let s = match self {
            Tile::Empty => "_",
            Tile::O => "O",
            Tile::X => "X",
        };
        proof {
            assert(s@ =~= seq![self.spec_char()]);
        }
        s
    }
}

} // verus!
