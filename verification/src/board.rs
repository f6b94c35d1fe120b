use crate::evaluation::{Evaluation, GameValue};
use crate::prune::{spec_apply, Prune};
use crate::size::{spec_indices, Size};
use crate::tile::Tile;
use crate::trace::Trace;
use crate::turn::Turn;
use vstd::prelude::*;
use vstd::string::StringExecFns;

verus! {

/// The row `y` of the grid is completely covered by the mark `t`.
pub open spec fn row_complete(pos: Seq<Seq<Tile>>, y: int, w: usize, t: Tile) -> bool {
    forall|x: int| 0 <= x < w ==> pos[y][x] == t
}

/// Some whole row of the grid carries the mark `t`.
pub open spec fn has_row(pos: Seq<Seq<Tile>>, w: usize, h: usize, t: Tile) -> bool {
    exists|y: int| 0 <= y < h && row_complete(pos, y, w, t)
}

/// The column `x` of the grid is completely covered by the mark `t`.
pub open spec fn col_complete(pos: Seq<Seq<Tile>>, x: int, h: usize, t: Tile) -> bool {
    forall|y: int| 0 <= y < h ==> pos[y][x] == t
}

/// Some whole column of the grid carries the mark `t`.
pub open spec fn has_col(pos: Seq<Seq<Tile>>, w: usize, h: usize, t: Tile) -> bool {
    exists|x: int| 0 <= x < w && col_complete(pos, x, h, t)
}

/// The main diagonal of a square grid carries the mark `t`.
pub open spec fn diag_main(pos: Seq<Seq<Tile>>, w: usize, t: Tile) -> bool {
    forall|i: int| 0 <= i < w ==> pos[i][i] == t
}

/// The anti-diagonal of a square grid carries the mark `t`.
pub open spec fn diag_anti(pos: Seq<Seq<Tile>>, w: usize, t: Tile) -> bool {
    forall|y: int, x: int| 0 <= x < w && y == w - 1 - x ==> #[trigger] pos[y][x] == t
}

/// Some diagonal carries the mark `t`; only square grids have diagonals.
pub open spec fn has_diag(pos: Seq<Seq<Tile>>, w: usize, h: usize, t: Tile) -> bool {
    w == h && (diag_main(pos, w, t) || diag_anti(pos, w, t))
}

/// Some whole row, column, or diagonal carries the mark `t`.
pub open spec fn has_line(pos: Seq<Seq<Tile>>, w: usize, h: usize, t: Tile) -> bool {
    has_row(pos, w, h, t) || has_col(pos, w, h, t) || has_diag(pos, w, h, t)
}

/// Every cell of the grid is occupied.
pub open spec fn all_filled(pos: Seq<Seq<Tile>>, w: usize, h: usize) -> bool {
    forall|y: int, x: int| 0 <= y < h && 0 <= x < w ==> pos[y][x] != Tile::Empty
}

/// The terminal result of a position, if the game has ended: an O line wins
/// for O with score `isize::MAX` minus the ply count, an X line wins for X
/// with score `isize::MIN` plus the ply count, and a filled board with no
/// line is a draw with score 0. Lines are checked in that order.
pub open spec fn spec_evaluate(pos: Seq<Seq<Tile>>, w: usize, h: usize, trace: Seq<Turn>) -> Option<
    GameValue,
> {
    if has_line(pos, w, h, Tile::O) {
        Some(GameValue { score: isize::MAX - trace.len(), trace })
    } else if has_line(pos, w, h, Tile::X) {
        Some(GameValue { score: isize::MIN + trace.len(), trace })
    } else if all_filled(pos, w, h) {
        Some(GameValue { score: 0, trace })
    } else {
        None
    }
}

/// The turn's coordinates lie on a `w` by `h` grid and its target cell is
/// empty.
pub open spec fn legal_at(pos: Seq<Seq<Tile>>, w: usize, h: usize, turn: Turn) -> bool {
    &&& turn.x < w
    &&& turn.y < h
    &&& pos[turn.y as int][turn.x as int] == Tile::Empty
}

/// The grid after placing the turn's mark on the turn's cell.
pub open spec fn play_at(pos: Seq<Seq<Tile>>, turn: Turn) -> Seq<Seq<Tile>> {
    pos.update(turn.y as int, pos[turn.y as int].update(turn.x as int, turn.tile))
}

/// An all-empty grid of the given dimensions.
pub open spec fn empty_grid(w: usize, h: usize) -> Seq<Seq<Tile>> {
    Seq::new(h as nat, |y: int| Seq::new(w as nat, |x: int| Tile::Empty))
}

/// The textual rendering of one row: each cell as a space followed by the
/// cell's mark character.
pub open spec fn render_row(row: Seq<Tile>) -> Seq<char>
    decreases row.len(),
{
    if row.len() == 0 {
        Seq::empty()
    } else {
        render_row(row.drop_last()) + seq![' ', row.last().spec_char()]
    }
}

/// The textual rendering of a grid: each row on a line of its own, preceded
/// by a newline.
pub open spec fn render_grid(pos: Seq<Seq<Tile>>) -> Seq<char>
    decreases pos.len(),
{
    if pos.len() == 0 {
        Seq::empty()
    } else {
        render_grid(pos.drop_last()) + seq!['\n'] + render_row(pos.last())
    }
}

/// A rendered row is two characters per cell.
pub proof fn lemma_render_row_len(row: Seq<Tile>)
    ensures
        render_row(row).len() == 2 * row.len(),
    decreases row.len(),
{
    if row.len() > 0 {
        lemma_render_row_len(row.drop_last());
    }
}

/// Within a rendered row, the cell `x` stands as a space at offset `2 * x`
/// followed by its mark character.
pub proof fn lemma_render_row_index(row: Seq<Tile>, x: int)
    requires
        0 <= x < row.len(),
    ensures
        render_row(row)[2 * x] == ' ',
        render_row(row)[2 * x + 1] == row[x].spec_char(),
    decreases row.len(),
{
    lemma_render_row_len(row.drop_last());
    if x == row.len() - 1 {
    } else {
        lemma_render_row_index(row.drop_last(), x);
    }
}

/// A rendered rectangular grid is one newline plus two characters per cell
/// for each row.
pub proof fn lemma_render_grid_len(pos: Seq<Seq<Tile>>, w: usize)
    requires
        forall|y: int| 0 <= y < pos.len() ==> (#[trigger] pos[y]).len() == w,
    ensures
        render_grid(pos).len() == pos.len() * (1 + 2 * w),
    decreases pos.len(),
{
    if pos.len() > 0 {
        lemma_render_grid_len(pos.drop_last(), w);
        lemma_render_row_len(pos.last());
        assert((pos.len() - 1) * (1 + 2 * w) + (1 + 2 * w) == pos.len() * (1 + 2 * w))
            by (nonlinear_arith);
    }
}

/// Within a rendered rectangular grid, the cell `(x, y)` stands at character
/// `y * (1 + 2 * w) + 2 * x + 2`: past `y` earlier row blocks, the row's
/// newline, and `x` earlier cells of its own row.
pub proof fn lemma_render_grid_index(pos: Seq<Seq<Tile>>, w: usize, x: int, y: int)
    requires
        forall|yy: int| 0 <= yy < pos.len() ==> (#[trigger] pos[yy]).len() == w,
        0 <= y < pos.len(),
        0 <= x < w,
    ensures
        render_grid(pos)[y * (1 + 2 * w) + 2 * x + 2] == pos[y][x].spec_char(),
    decreases pos.len(),
{
    lemma_render_grid_len(pos.drop_last(), w);
    if y == pos.len() - 1 {
        assert(pos.last() == pos[y] && pos[y].len() == w);
        lemma_render_row_index(pos.last(), x);
        lemma_render_row_len(pos.last());
        let head = render_grid(pos.drop_last()) + seq!['\n'];
        assert(render_grid(pos) == head + render_row(pos.last()));
        assert(head.len() == y * (1 + 2 * w) + 1);
        assert((head + render_row(pos.last()))[y * (1 + 2 * w) + 2 * x + 2] == render_row(
            pos.last(),
        )[2 * x + 1]);
        assert(pos.last() == pos[y]);
    } else {
        lemma_render_grid_index(pos.drop_last(), w, x, y);
        assert(y * (1 + 2 * w) + 2 * x + 2 < (pos.len() - 1) * (1 + 2 * w)) by (nonlinear_arith)
            requires
                0 <= y < pos.len() - 1,
                0 <= x < w,
        ;
        assert(render_grid(pos)[y * (1 + 2 * w) + 2 * x + 2] == render_grid(pos.drop_last())[y * (1
            + 2 * w) + 2 * x + 2]);
    }
}

/// Round trip between a board and its rendering: for every in-range
/// coordinate, the character the rendering shows for that cell is the empty
/// mark exactly when placing a mark there is legal, so re-parsing the text
/// recovers each cell's legal/illegal classification.
pub proof fn lemma_render_round_trip(b: &Board, x: usize, y: usize, tile: Tile)
    requires
        b.wf(),
        tile != Tile::Empty,
        x < b.spec_size().width,
        y < b.spec_size().height,
    ensures
        (render_grid(b.spec_pos())[y * (1 + 2 * b.spec_size().width) + 2 * x + 2] == '_')
            <==> b.spec_is_legal(Turn { x, y, tile }),
{
    lemma_render_grid_index(b.spec_pos(), b.spec_size().width, x as int, y as int);
}

/// Playing a mark can only complete a line of that same mark: a line of any
/// other mark in the successor position was already present.
pub proof fn lemma_new_line_is_own(pos: Seq<Seq<Tile>>, w: usize, h: usize, turn: Turn, t: Tile)
    requires
        pos.len() == h,
        forall|y: int| 0 <= y < h ==> (#[trigger] pos[y]).len() == w,
        legal_at(pos, w, h, turn),
        t != turn.tile,
        has_line(play_at(pos, turn), w, h, t),
    ensures
        has_line(pos, w, h, t),
{
    let child = play_at(pos, turn);
    let ty = turn.y as int;
    let tx = turn.x as int;
    assert(child[ty][tx] == turn.tile);
    assert(forall|y: int, x: int|
        0 <= y < h && 0 <= x < w && !(y == ty && x == tx) ==> #[trigger] child[y][x] == pos[y][x]);
    if has_row(child, w, h, t) {
        let y = choose|y: int| 0 <= y < h && row_complete(child, y, w, t);
        assert(child[y][tx] == t);
        assert(forall|x: int| 0 <= x < w ==> pos[y][x] == #[trigger] child[y][x]);
        assert(row_complete(pos, y, w, t));
    } else if has_col(child, w, h, t) {
        let x = choose|x: int| 0 <= x < w && col_complete(child, x, h, t);
        assert(child[ty][x] == t);
        assert forall|y: int| 0 <= y < h implies #[trigger] pos[y][x] == child[y][x] by {
            assert(!(y == ty && x == tx));
        }
        assert(col_complete(pos, x, h, t));
    } else {
        assert(w == h);
        if diag_main(child, w, t) {
            assert forall|i: int| 0 <= i < w implies #[trigger] pos[i][i] == t by {
                assert(child[i][i] == t);
                if i == ty && i == tx {
                    assert(child[ty][tx] == turn.tile);
                }
            }
            assert(diag_main(pos, w, t));
        } else {
            assert forall|y: int, x: int| 0 <= x < w && y == w - 1 - x implies #[trigger] pos[y][x]
                == t by {
                assert(child[y][x] == t);
                if y == ty && x == tx {
                    assert(child[ty][tx] == turn.tile);
                }
            }
            assert(diag_anti(pos, w, t));
        }
    }
}

/// An empty board of more than one cell is not terminal: no line is complete
/// and the board is not filled, so the evaluation is still open.
pub proof fn lemma_empty_board_not_terminal(w: usize, h: usize, trace: Seq<Turn>)
    requires
        w >= 1,
        h >= 1,
        w * h > 1,
    ensures
        spec_evaluate(empty_grid(w, h), w, h, trace) is None,
{
    let pos = empty_grid(w, h);
    assert forall|t: Tile| t != Tile::Empty implies !has_line(pos, w, h, t) by {
        assert(pos[0][0] == Tile::Empty);
        if has_row(pos, w, h, t) {
            let y = choose|y: int| 0 <= y < h && row_complete(pos, y, w, t);
            assert(pos[y][0] == Tile::Empty);
        }
        if has_col(pos, w, h, t) {
            let x = choose|x: int| 0 <= x < w && col_complete(pos, x, h, t);
            assert(pos[0][x] == Tile::Empty);
        }
        if has_diag(pos, w, h, t) {
            assert(pos[0][0] == t || pos[w - 1][0] == t);
        }
    }
    assert(pos[0][0] == Tile::Empty);
    assert(!all_filled(pos, w, h));
}

/// A fully filled board with no completed line is a draw: its evaluation is
/// the score 0 with the trace played so far.
pub proof fn lemma_filled_board_draws(pos: Seq<Seq<Tile>>, w: usize, h: usize, trace: Seq<Turn>)
    requires
        all_filled(pos, w, h),
        !has_line(pos, w, h, Tile::O),
        !has_line(pos, w, h, Tile::X),
    ensures
        spec_evaluate(pos, w, h, trace) == Some(GameValue { score: 0, trace }),
{
}

/// Stores a board state of tic-tac-toe.
#[derive(Clone)]
pub struct Board {
    prune: Prune,
    size: Size,
    trace: Trace,
    position: Vec<Vec<Tile>>,
}

impl Board {
    /// The grid of this board, row by row.
    pub closed spec fn spec_pos(&self) -> Seq<Seq<Tile>> {
        Seq::new(self.position@.len(), |y: int| self.position@[y]@)
    }

    /// The dimensions of this board.
    pub closed spec fn spec_size(&self) -> Size {
        self.size
    }

    /// The moves played to reach this board, in play order.
    pub closed spec fn spec_trace(&self) -> Seq<Turn> {
        self.trace@
    }

    /// The pruning thresholds this board snapshot owns.
    pub closed spec fn spec_prune(&self) -> Prune {
        self.prune
    }

    /// Well-formedness: the grid is a rectangle of the stated dimensions, and
    /// the trace is short enough for the scoring arithmetic.
    pub closed spec fn wf(&self) -> bool {
        &&& self.spec_pos().len() == self.size.height
        &&& forall|y: int|
            0 <= y < self.size.height ==> (#[trigger] self.spec_pos()[y]).len() == self.size.width
        &&& self.trace@.len() <= isize::MAX
    }

    /// The move's coordinates lie on the board and its target cell is empty.
    pub open spec fn spec_is_legal(&self, turn: Turn) -> bool {
        legal_at(self.spec_pos(), self.spec_size().width, self.spec_size().height, turn)
    }

    /// Each row of the grid view is the view of the stored row vector.
    proof fn lemma_rows(&self)
        ensures
            self.spec_pos().len() == self.position@.len(),
            forall|y: int|
                0 <= y < self.position@.len() ==> (#[trigger] self.position@[y])@
                    == self.spec_pos()[y],
    {
    }

    /// Creates a new board with a given size: all cells empty, the given
    /// trace (or an empty one), and fresh pruning thresholds.
    pub fn new(size: Size, trace: Option<&Trace>) -> (b: Board)
        requires
            match trace {
                Some(t) => t@.len() <= isize::MAX,
                None => true,
            },
        ensures
            b.wf(),
            b.spec_size() == size,
            b.spec_pos() == empty_grid(size.width, size.height),
            b.spec_trace() == match trace {
                Some(t) => t@,
                None => Seq::<Turn>::empty(),
            },
            b.spec_prune() == (Prune { alpha: isize::MIN, beta: isize::MAX }),
    {
        let width = size.width;
        let height = size.height;

        let mut position: Vec<Vec<Tile>> = Vec::new();
        let mut y: usize = 0;
        while y < height
            invariant
                y <= height,
                position@.len() == y,
                forall|yy: int, x: int|
                    0 <= yy < y && 0 <= x < width ==> #[trigger] position@[yy]@[x] == Tile::Empty,
                forall|yy: int| 0 <= yy < y ==> (#[trigger] position@[yy])@.len() == width,
            decreases height - y,
        {
            let mut row: Vec<Tile> = Vec::new();
            let mut x: usize = 0;
            while x < width
                invariant
                    x <= width,
                    row@.len() == x,
                    forall|xx: int| 0 <= xx < x ==> #[trigger] row@[xx] == Tile::Empty,
                decreases width - x,
            {
                row.push(Tile::Empty);
                x += 1;
            }
            position.push(row);
            y += 1;
        }

        let b = Board {
            prune: Prune::new(),
            size,
            trace: match trace {
                Some(t) => t.clone(),
                None => Trace::new(),
            },
            position,
        };
        proof {
            assert(b.spec_pos() =~~= empty_grid(size.width, size.height));
        }
        b
    }

    /// Applies the evaluation to the prune object and updates it accordingly.
    pub fn apply(&mut self, evaluation: &Evaluation, is_o: bool)
        ensures
            final(self).spec_prune() == spec_apply(
                old(self).spec_prune(),
                evaluation.result,
                is_o,
            ),
            final(self).spec_pos() == old(self).spec_pos(),
            final(self).spec_size() == old(self).spec_size(),
            final(self).spec_trace() == old(self).spec_trace(),
            final(self).wf() == old(self).wf(),
    {
        self.prune.apply(evaluation, is_o);
    }

    /// Determines if the entire board is filled, and no more legal moves can
    /// be played.
    pub fn is_filled(&self) -> (r: bool)
        requires
            self.wf(),
        ensures
            r == all_filled(self.spec_pos(), self.spec_size().width, self.spec_size().height),
    {
        let mut y: usize = 0;
        while y < self.size.height
            invariant
                self.wf(),
                y <= self.size.height,
                forall|yy: int, x: int|
                    0 <= yy < y && 0 <= x < self.size.width ==> self.spec_pos()[yy][x]
                        != Tile::Empty,
            decreases self.size.height - y,
        {
            let mut x: usize = 0;
            while x < self.size.width
                invariant
                    self.wf(),
                    y < self.size.height,
                    x <= self.size.width,
                    forall|xx: int|
                        0 <= xx < x ==> self.spec_pos()[y as int][xx] != Tile::Empty,
            decreases self.size.width - x,
            {
                if self.position[y][x] == Tile::Empty {
                    return false;
                }
                x += 1;
            }
            y += 1;
        }
        true
    }

    /// Determines whether the move passed in is legal to play.
    pub fn is_legal(&self, turn: &Turn) -> (r: bool)
        requires
            self.wf(),
        ensures
            r == self.spec_is_legal(*turn),
    {
        if !self.is_between(turn) {
            return false;
        }
        proof {
            self.lemma_rows();
        }
        self.position[turn.y][turn.x] == Tile::Empty
    }

    /// Determines whether the branch just evaluated should be pruned based on
    /// the current prune values.
    pub fn is_pruning(&self, evaluation: &Evaluation, is_o: bool) -> (r: bool)
        ensures
            r == (if is_o {
                self.spec_prune().beta < evaluation.result
            } else {
                self.spec_prune().alpha > evaluation.result
            }),
    {
        self.prune.is_pruning(evaluation, is_o)
    }

    /// Gets the height of the board.
    pub fn height(&self) -> (h: usize)
        ensures
            h == self.spec_size().height,
    {
        self.size.height
    }

    /// Returns the maximum depth needed to calculate the perfect game of
    /// tic-tac-toe: one more than the number of cells.
    pub fn max_depth(&self) -> (d: usize)
        requires
            self.spec_size().width * self.spec_size().height + 1 <= usize::MAX,
        ensures
            d == self.spec_size().width * self.spec_size().height + 1,
    {
        self.size.max_depth()
    }

    /// Gets the width of the board.
    pub fn width(&self) -> (w: usize)
        ensures
            w == self.spec_size().width,
    {
        self.size.width
    }

    /// Returns a string representation of the current board state: each row
    /// on a line of its own, each cell as a space followed by its mark.
    pub fn current_position(&self) -> (out: String)
        requires
            self.wf(),
        ensures
            out@ == render_grid(self.spec_pos()),
    {
        let mut out = String::new();

        proof {
            reveal_strlit("\n");
            reveal_strlit(" ");
            assert(out@ =~= render_grid(self.spec_pos().subrange(0, 0)));
        }
        let mut y: usize = 0;
        while y < self.size.height
            invariant
                self.wf(),
                y <= self.size.height,
                out@ == render_grid(self.spec_pos().subrange(0, y as int)),
            decreases self.size.height - y,
        {
            out.append("\n");
            proof {
                reveal_strlit("\n");
                reveal_strlit(" ");
                assert(out@ == render_grid(self.spec_pos().subrange(0, y as int)) + seq!['\n']
                    + render_row(self.spec_pos()[y as int].subrange(0, 0)));
            }
            let mut x: usize = 0;
            while x < self.size.width
                invariant
                    self.wf(),
                    y < self.size.height,
                    x <= self.size.width,
                    out@ == render_grid(self.spec_pos().subrange(0, y as int)) + seq!['\n']
                        + render_row(self.spec_pos()[y as int].subrange(0, x as int)),
                decreases self.size.width - x,
            {
                out.append(" ");
                out.append(self.position[y][x].as_str());
                proof {
                    reveal_strlit(" ");
                    let row = self.spec_pos()[y as int];
                    assert(row.subrange(0, x + 1).drop_last() =~= row.subrange(0, x as int));
                    assert(render_row(row.subrange(0, x + 1)) =~= render_row(
                        row.subrange(0, x as int),
                    ) + seq![' ', row[x as int].spec_char()]);
                    assert(out@ =~= render_grid(self.spec_pos().subrange(0, y as int))
                        + seq!['\n'] + render_row(row.subrange(0, x + 1)));
                }
                x += 1;
            }
            proof {
                let pre = self.spec_pos().subrange(0, y + 1);
                assert(pre.drop_last() =~= self.spec_pos().subrange(0, y as int));
                assert(pre.last() =~= self.spec_pos()[y as int]);
                assert(self.spec_pos()[y as int].subrange(
                    0,
                    self.size.width as int,
                ) =~= self.spec_pos()[y as int]);
                assert(out@ =~= render_grid(pre));
            }
            y += 1;
        }
        proof {
            assert(self.spec_pos().subrange(0, self.size.height as int) =~= self.spec_pos());
        }
        out
    }

    /// Clones the board, plays the move, and returns the board. Returns None
    /// if the move isn't legal. A successful play yields a brand-new board:
    /// one cell changed, the trace extended with this move (so exactly one
    /// longer), and fresh pruning thresholds.
    pub fn play(&self, turn: Turn) -> (r: Option<Board>)
        requires
            self.wf(),
            self.spec_trace().len() < isize::MAX,
        ensures
            match r {
                None => !self.spec_is_legal(turn),
                Some(b) => {
                    &&& self.spec_is_legal(turn)
                    &&& b.wf()
                    &&& b.spec_size() == self.spec_size()
                    &&& b.spec_pos() == play_at(self.spec_pos(), turn)
                    &&& b.spec_trace() == self.spec_trace().push(turn)
                    &&& b.spec_prune() == (Prune { alpha: isize::MIN, beta: isize::MAX })
                },
            },
    {
        if !self.is_legal(&turn) {
            None
        } else {
            let mut position: Vec<Vec<Tile>> = Vec::new();
            let mut y: usize = 0;
            while y < self.size.height
                invariant
                    self.wf(),
                    self.spec_is_legal(turn),
                    y <= self.size.height,
                    position@.len() == y,
                    forall|yy: int|
                        0 <= yy < y ==> (#[trigger] position@[yy])@ == play_at(
                            self.spec_pos(),
                            turn,
                        )[yy],
                decreases self.size.height - y,
            {
                let mut row: Vec<Tile> = Vec::new();
                let mut x: usize = 0;
                while x < self.size.width
                    invariant
                        self.wf(),
                        self.spec_is_legal(turn),
                        y < self.size.height,
                        x <= self.size.width,
                        row@ == play_at(self.spec_pos(), turn)[y as int].subrange(0, x as int),
                    decreases self.size.width - x,
                {
                    if x == turn.x && y == turn.y {
                        row.push(turn.tile);
                    } else {
                        row.push(self.position[y][x]);
                    }
                    proof {
                        assert(row@ =~= play_at(self.spec_pos(), turn)[y as int].subrange(
                            0,
                            x + 1,
                        ));
                    }
                    x += 1;
                }
                position.push(row);
                proof {
                    assert(row@ =~= play_at(self.spec_pos(), turn)[y as int]);
                }
                y += 1;
            }
            let mut trace = self.trace.clone();
            trace.push(turn);
            let b = Board { prune: Prune::new(), size: self.size, trace, position };
            proof {
                assert(b.spec_pos() =~~= play_at(self.spec_pos(), turn));
            }
            Some(b)
        }
    }

    /// Evaluates a position and returns an evaluation object. Returns None if
    /// the game hasn't ended.
    pub fn evaluate(&self) -> (r: Option<Evaluation>)
        requires
            self.wf(),
        ensures
            match r {
                Some(e) => Some(e.model()) == spec_evaluate(
                    self.spec_pos(),
                    self.spec_size().width,
                    self.spec_size().height,
                    self.spec_trace(),
                ),
                None => spec_evaluate(
                    self.spec_pos(),
                    self.spec_size().width,
                    self.spec_size().height,
                    self.spec_trace(),
                ) is None,
            },
    {
        if self.is_line(Tile::O) {
            Some(Evaluation::new(isize::MAX - self.trace.len(), self.trace.clone()))
        } else if self.is_line(Tile::X) {
            Some(Evaluation::new(isize::MIN + self.trace.len(), self.trace.clone()))
        } else if self.is_filled() {
            Some(Evaluation::new(0, self.trace.clone()))
        } else {
            None
        }
    }

    /// Returns all indices that can be indexed into the inner board, in
    /// row-major order.
    pub fn indices(&self) -> (r: Vec<(usize, usize)>)
        ensures
            r@ == spec_indices(self.spec_size().width, self.spec_size().height),
    {
        self.size.indices()
    }

    /// Determines whether the Turn object is within bounds of the size of the
    /// board.
    fn is_between(&self, turn: &Turn) -> (r: bool)
        ensures
            r == (turn.x < self.spec_size().width && turn.y < self.spec_size().height),
    {
        self.size.is_between(turn)
    }

    /// Determines if a given tile matches any columns.
    #[verifier::loop_isolation(false)]
    fn is_column(&self, compare: Tile) -> (r: bool)
        requires
            self.wf(),
        ensures
            r == has_col(self.spec_pos(), self.spec_size().width, self.spec_size().height, compare),
    {
        proof {
            self.lemma_rows();
        }
        let mut x: usize = 0;
        while x < self.size.width
            invariant
                self.wf(),
                x <= self.size.width,
                forall|xx: int|
                    0 <= xx < x ==> !col_complete(self.spec_pos(), xx, self.spec_size().height, compare),
            decreases self.size.width - x,
        {
            let mut y: usize = 0;
            let mut complete = true;
            while y < self.size.height
                invariant
                    self.wf(),
                    x < self.size.width,
                    y <= self.size.height,
                    complete == (forall|yy: int|
                        0 <= yy < y ==> self.spec_pos()[yy][x as int] == compare),
                decreases self.size.height - y,
            {
                complete = complete && self.position[y][x] == compare;
                y += 1;
            }
            if complete {
                proof {
                    assert(col_complete(
                        self.spec_pos(),
                        x as int,
                        self.spec_size().height,
                        compare,
                    ));
                }
                return true;
            }
            x += 1;
        }
        false
    }

    /// Determines if a given tile matches any diagonal. Always returns false
    /// if the board width and height aren't the same.
    #[verifier::loop_isolation(false)]
    fn is_diagonal(&self, compare: Tile) -> (r: bool)
        requires
            self.wf(),
        ensures
            r == has_diag(self.spec_pos(), self.spec_size().width, self.spec_size().height, compare),
    {
        if !self.is_square() {
            return false;
        }
        proof {
            self.lemma_rows();
        }
        let mut main = true;
        let mut i: usize = 0;
        while i < self.size.width
            invariant
                self.wf(),
                self.size.width == self.size.height,
                i <= self.size.width,
                main == (forall|ii: int| 0 <= ii < i ==> self.spec_pos()[ii][ii] == compare),
            decreases self.size.width - i,
        {
            main = main && self.position[i][i] == compare;
            i += 1;
        }
        if main {
            return true;
        }
        let mut anti = true;
        let mut i: usize = 0;
        while i < self.size.width
            invariant
                self.wf(),
                self.size.width == self.size.height,
                i <= self.size.width,
                anti == (forall|yy: int, xx: int|
                    0 <= xx < i && yy == self.size.width - 1 - xx
                        ==> #[trigger] self.spec_pos()[yy][xx] == compare),
            decreases self.size.width - i,
        {
            anti = anti && self.position[self.size.width - i - 1][i] == compare;
            i += 1;
        }
        anti
    }

    /// Determines if a given tile matches any line (row, column, or
    /// diagonal).
    fn is_line(&self, compare: Tile) -> (r: bool)
        requires
            self.wf(),
        ensures
            r == has_line(self.spec_pos(), self.spec_size().width, self.spec_size().height, compare),
    {
        self.is_row(compare) || self.is_column(compare) || self.is_diagonal(compare)
    }

    /// Determines if a given tile matches any rows.
    #[verifier::loop_isolation(false)]
    fn is_row(&self, compare: Tile) -> (r: bool)
        requires
            self.wf(),
        ensures
            r == has_row(self.spec_pos(), self.spec_size().width, self.spec_size().height, compare),
    {
        proof {
            self.lemma_rows();
        }
        let mut y: usize = 0;
        while y < self.size.height
            invariant
                self.wf(),
                y <= self.size.height,
                forall|yy: int|
                    0 <= yy < y ==> !row_complete(self.spec_pos(), yy, self.spec_size().width, compare),
            decreases self.size.height - y,
        {
            let mut x: usize = 0;
            let mut complete = true;
            while x < self.size.width
                invariant
                    self.wf(),
                    y < self.size.height,
                    x <= self.size.width,
                    complete == (forall|xx: int|
                        0 <= xx < x ==> self.spec_pos()[y as int][xx] == compare),
                decreases self.size.width - x,
            {
                complete = complete && self.position[y][x] == compare;
                x += 1;
            }
            if complete {
                proof {
                    assert(row_complete(
                        self.spec_pos(),
                        y as int,
                        self.spec_size().width,
                        compare,
                    ));
                }
                return true;
            }
            y += 1;
        }
        false
    }

    /// Determines whether the width and height length are the same.
    fn is_square(&self) -> (r: bool)
        ensures
            r == (self.spec_size().width == self.spec_size().height),
    {
        self.width() == self.height()
    }

    /// Gets a clone of the board's trace.
    pub fn trace(&self) -> (t: Trace)
        ensures
            t@ == self.spec_trace(),
    {
        self.trace.clone()
    }
}

} // verus!
