use crate::turn::Turn;
use vstd::prelude::*;

verus! {

/// Encapsulates width and height into a struct.
#[derive(Clone, Copy, PartialEq, Eq, Structural, Debug)]
pub struct Size {
    pub width: usize,
    pub height: usize,
}

/// The coordinates of one row of cells: `(0, y)` through `(w - 1, y)`.
pub open spec fn row_coords(w: usize, y: usize) -> Seq<(usize, usize)> {
    Seq::new(w as nat, |x: int| (x as usize, y))
}

/// Every cell coordinate of a `w` by `h` grid in row-major order: all of row
/// 0 left to right, then all of row 1, and so on.
pub open spec fn spec_indices(w: usize, h: usize) -> Seq<(usize, usize)>
    decreases h,
{
    if h == 0 {
        Seq::empty()
    } else {
        spec_indices(w, (h - 1) as usize) + row_coords(w, (h - 1) as usize)
    }
}

/// Every in-range coordinate occurs in the row-major coordinate list.
pub proof fn lemma_spec_indices_contains(w: usize, h: usize, x: usize, y: usize)
    requires
        x < w,
        y < h,
    ensures
        spec_indices(w, h).contains((x, y)),
    decreases h,
{
    let hp = (h - 1) as usize;
    if y < hp {
        lemma_spec_indices_contains(w, hp, x, y);
        let i = choose|i: int|
            0 <= i < spec_indices(w, hp).len() && spec_indices(w, hp)[i] == (x, y);
        assert(spec_indices(w, h)[i] == (x, y));
    } else {
        let i = spec_indices(w, hp).len() as int;
        assert(row_coords(w, hp)[x as int] == (x, y));
        assert(spec_indices(w, h)[i + x] == (x, y));
    }
}

impl Size {
    /// Creates a new instance of size, setting the width and height.
    pub fn new(width: usize, height: usize) -> (s: Size)
        ensures
            s == (Size { width, height }),
    {
        Size { width, height }
    }

    /// Determines whether the turn object passed in is within bounds of the
    /// width and height.
    pub fn is_between(&self, turn: &Turn) -> (r: bool)
        ensures
            r == (turn.x < self.width && turn.y < self.height),
    {
        self.width > turn.x && self.height > turn.y
    }

    /// Get the maximum depth limit needed to play a perfect game: one more
    /// than the number of cells, as a safety margin.
    pub fn max_depth(&self) -> (d: usize)
        requires
            self.width * self.height + 1 <= usize::MAX,
        ensures
            d == self.width * self.height + 1,
    {
        self.width * self.height + 1
    }

    /// Gets a vector of indices suitable for iterating over the bounds of
    /// this size instance, in row-major order.
    pub fn indices(&self) -> (r: Vec<(usize, usize)>)
        ensures
            r@ == spec_indices(self.width, self.height),
    {
        let mut indices: Vec<(usize, usize)> = Vec::new();

        proof {
            assert(indices@ =~= spec_indices(self.width, 0));
        }
        let mut y: usize = 0;
        while y < self.height
            invariant
                y <= self.height,
                indices@ == spec_indices(self.width, y),
            decreases self.height - y,
        {
            proof {
                assert(indices@ =~= spec_indices(self.width, y) + row_coords(
                    self.width,
                    y,
                ).subrange(0, 0));
            }
            let mut x: usize = 0;
            while x < self.width
                invariant
                    x <= self.width,
                    y < self.height,
                    indices@ == spec_indices(self.width, y) + row_coords(self.width, y).subrange(
                        0,
                        x as int,
                    ),
                decreases self.width - x,
            {
                indices.push((x, y));
                proof {
                    assert(indices@ =~= spec_indices(self.width, y) + row_coords(
                        self.width,
                        y,
                    ).subrange(0, x + 1));
                }
                x += 1;
            }
            proof {
                assert(row_coords(self.width, y).subrange(0, self.width as int) =~= row_coords(
                    self.width,
                    y,
                ));
                assert(indices@ =~= spec_indices(self.width, (y + 1) as usize));
            }
            y += 1;
        }

        indices
    }
}

} // verus!
