use crate::size::Size;
use crate::tile::Tile;
use crate::turn::Turn;
use vstd::prelude::*;

verus! {

/// Encapsulates a 2-dimensional plane of tiles.
#[derive(Debug)]
pub struct Position {
    tiles: Vec<Vec<Tile>>,
}

impl View for Position {
    type V = Seq<Seq<Tile>>;

    closed spec fn view(&self) -> Seq<Seq<Tile>> {
        Seq::new(self.tiles@.len(), |y: int| self.tiles@[y]@)
    }
}

impl Position {
    /// The plane is a rectangle of the given size.
    pub open spec fn wf(&self, size: Size) -> bool {
        &&& self@.len() == size.height
        &&& forall|y: int| 0 <= y < size.height ==> (#[trigger] self@[y]).len() == size.width
    }

    /// Generates a new 2-dimensional plane based on the size given, with
    /// every tile empty.
    pub fn new(size: Size) -> (p: Position)
        ensures
            p.wf(size),
            forall|y: int, x: int|
                0 <= y < size.height && 0 <= x < size.width ==> #[trigger] p@[y][x] == Tile::Empty,
    {
        let mut tiles: Vec<Vec<Tile>> = Vec::new();
        let mut y: usize = 0;
        while y < size.height
            invariant
                y <= size.height,
                tiles@.len() == y,
                forall|yy: int| 0 <= yy < y ==> (#[trigger] tiles@[yy])@.len() == size.width,
                forall|yy: int, x: int|
                    0 <= yy < y && 0 <= x < size.width ==> #[trigger] tiles@[yy]@[x] == Tile::Empty,
            decreases size.height - y,
        {
            let mut row: Vec<Tile> = Vec::new();
            let mut x: usize = 0;
            while x < size.width
                invariant
                    x <= size.width,
                    row@.len() == x,
                    forall|xx: int| 0 <= xx < x ==> #[trigger] row@[xx] == Tile::Empty,
                decreases size.width - x,
            {
                row.push(Tile::Empty);
                x += 1;
            }
            tiles.push(row);
            y += 1;
        }
        Position { tiles }
    }

    /// Sets the value at the turn's coordinates to the turn's tile. The
    /// coordinates must lie inside the plane.
    pub fn set(&mut self, turn: Turn)
        requires
            turn.y < old(self)@.len(),
            turn.x < old(self)@[turn.y as int].len(),
        ensures
            final(self)@ == old(self)@.update(
                turn.y as int,
                old(self)@[turn.y as int].update(turn.x as int, turn.tile),
            ),
    {
        self.tiles[turn.y][turn.x] = turn.tile;
        proof {
            assert(self@ =~~= old(self)@.update(
                turn.y as int,
                old(self)@[turn.y as int].update(turn.x as int, turn.tile),
            ));
        }
    }

    /// Gets the value at the turn's coordinates. The coordinates must lie
    /// inside the plane.
    pub fn get(&self, turn: Turn) -> (t: Tile)
        requires
            turn.y < self@.len(),
            turn.x < self@[turn.y as int].len(),
        ensures
            t == self@[turn.y as int][turn.x as int],
    {
        self.tiles[turn.y][turn.x]
    }
}

} // verus!
