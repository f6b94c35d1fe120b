use crate::board::{has_line, legal_at, lemma_new_line_is_own, play_at, spec_evaluate, Board};
use crate::prune::Prune;
use crate::size::{lemma_spec_indices_contains, spec_indices};
use crate::tile::Tile;
use crate::trace::Trace;
use crate::tree::{tree_begin_child, tree_build, tree_end_child, tree_level, tree_new};
use crate::turn::Turn;
use vstd::prelude::*;

verus! {

/// The mathematical outcome of evaluating a position: a score and the move
/// sequence that produced it. A win for O scores `isize::MAX` minus the
/// length of the sequence, a win for X scores `isize::MIN` plus that length,
/// and a draw or depth-exhausted cutoff scores 0.
#[verifier::ext_equal]
pub struct GameValue {
    pub score: int,
    pub trace: Seq<Turn>,
}

/// Encapsulates a result which stores which side is winning, and the move
/// trace that it evaluated.
#[derive(Debug)]
pub struct Evaluation {
    pub result: isize,
    pub trace: Trace,
}

impl Evaluation {
    /// The move sequence this evaluation carries.
    pub open spec fn spec_trace(&self) -> Seq<Turn> {
        self.trace@
    }

    /// The outcome this evaluation stands for.
    pub open spec fn model(&self) -> GameValue {
        GameValue { score: self.result as int, trace: self.spec_trace() }
    }

    /// Creates a new instance of an evaluation, encapsulating the parameters
    /// given.
    pub fn new(result: isize, trace: Trace) -> (e: Evaluation)
        ensures
            e.result == result,
            e.spec_trace() == trace@,
    {
        Evaluation { result, trace }
    }

    /// Gets the move at the given index of the evaluated trace; index 0 is
    /// the first move that was played.
    pub fn get(&self, index: usize) -> (r: Option<&Turn>)
        ensures
            match r {
                Some(t) => index < self.spec_trace().len() && *t == self.spec_trace()[index as int],
                None => index >= self.spec_trace().len(),
            },
    {
        self.trace.get(index)
    }

    /// Returns the best evaluation for the respective player: the one of
    /// maximum score when `is_o` holds (the last such on a tie), else the one
    /// of minimum score (the first such on a tie). The vector must not be
    /// empty.
    pub(crate) fn by_result(evaluations: Vec<Evaluation>, is_o: bool) -> (r: Evaluation)
        requires
            evaluations@.len() > 0,
        ensures
            r.model() == best(models(evaluations@), is_o),
    {
        let mut evaluations = evaluations;
        let ghost all = models(evaluations@);
        let mut best_i: usize = 0;
        let mut i: usize = 1;
        proof {
            assert(all.subrange(0, 1) =~= seq![evaluations@[0].model()]);
        }
        while i < evaluations.len()
            invariant
                1 <= i <= evaluations@.len(),
                best_i < i,
                all == models(evaluations@),
                evaluations@[best_i as int].model() == best(all.subrange(0, i as int), is_o),
            decreases evaluations@.len() - i,
        {
            let better = if is_o {
                evaluations[i].result >= evaluations[best_i].result
            } else {
                evaluations[i].result < evaluations[best_i].result
            };
            proof {
                let next = all.subrange(0, i + 1);
                assert(next.drop_last() =~= all.subrange(0, i as int));
                assert(next.last() == evaluations@[i as int].model());
            }
            if better {
                best_i = i;
            }
            i += 1;
        }
        proof {
            assert(all.subrange(0, evaluations@.len() as int) =~= all);
        }
        evaluations.swap_remove(best_i)
    }

    /// Takes a board and performs an alpha-beta pruned minimax algorithm to
    /// return an evaluation: the outcome of the exhaustive search from this
    /// position, acting first for the minimizer. When `is_printing` holds,
    /// the tree of every visited board's rendering is returned beside it, for
    /// the caller to put out.
    pub fn game(board: &mut Board, max_depth: Option<usize>, is_printing: bool) -> (r: (
        Evaluation,
        Option<ptree::item::StringItem>,
    ))
        requires
            old(board).wf(),
            old(board).spec_prune() == (Prune { alpha: isize::MIN, beta: isize::MAX }),
            old(board).spec_trace().len() + spec_depth_of(*old(board), max_depth) <= isize::MAX,
            spec_depth_of(*old(board), max_depth) + 1 <= u32::MAX,
        ensures
            r.0.model() == minimax(
                old(board).spec_pos(),
                old(board).spec_trace(),
                old(board).spec_size().width,
                old(board).spec_size().height,
                false,
                spec_depth_of(*old(board), max_depth) as nat,
            ),
            r.1 is Some <==> is_printing,
            final(board).wf(),
            final(board).spec_pos() == old(board).spec_pos(),
            final(board).spec_trace() == old(board).spec_trace(),
            final(board).spec_size() == old(board).spec_size(),
    {
        let mut tree = tree_new(board.current_position());
        let max_depth = match max_depth {
            Some(d) => d,
            None => board.max_depth(),
        };

        let game = Evaluation::game_inner(board, &mut tree, is_printing, false, max_depth);
        if is_printing {
            let item = tree_build(&mut tree);
            (game, Some(item))
        } else {
            (game, None)
        }
    }

    /// The inner game method that stores the current state of the game: the
    /// recursive search itself, acting for O when `is_o` holds and for X
    /// otherwise, exploring at most `depth` further plies.
    pub fn game_inner(
        board: &mut Board,
        tree: &mut ptree::builder::TreeBuilder,
        is_printing: bool,
        is_o: bool,
        depth: usize,
    ) -> (r: Evaluation)
        requires
            old(board).wf(),
            old(board).spec_trace().len() + depth <= isize::MAX,
            if is_o {
                old(board).spec_prune().beta == isize::MAX
            } else {
                old(board).spec_prune().alpha == isize::MIN
            },
            is_printing ==> tree_level(*old(tree)) + depth + 1 <= u32::MAX,
        ensures
            r.model() == minimax(
                old(board).spec_pos(),
                old(board).spec_trace(),
                old(board).spec_size().width,
                old(board).spec_size().height,
                is_o,
                depth as nat,
            ),
            final(board).wf(),
            final(board).spec_pos() == old(board).spec_pos(),
            final(board).spec_trace() == old(board).spec_trace(),
            final(board).spec_size() == old(board).spec_size(),
            tree_level(*final(tree)) == tree_level(*old(tree)),
            !is_printing ==> *final(tree) == *old(tree),
        decreases depth,
    {
        let ghost pos = old(board).spec_pos();
        let ghost trace = old(board).spec_trace();
        let ghost w = old(board).spec_size().width;
        let ghost h = old(board).spec_size().height;

        if is_printing {
            tree_begin_child(tree, board.current_position());
        }
        let evaluated = board.evaluate();
        if let Some(evaluation) = evaluated {
            if is_printing {
                tree_end_child(tree);
            }
            evaluation
        } else if depth == 0 {
            if is_printing {
                tree_end_child(tree);
            }
            Evaluation::new(0, board.trace())
        } else {
            let ghost coords = spec_indices(w, h);
            let mut moves: Vec<Evaluation> = Vec::new();

            let tile = Tile::from_bool(is_o);
            let indices = board.indices();
            proof {
                assert(coords.skip(0) =~= coords);
                assert(models(moves@) + child_values(pos, trace, w, h, is_o, depth as nat, coords)
                    =~= child_values(pos, trace, w, h, is_o, depth as nat, coords));
            }
            let mut i: usize = 0;
            while i < indices.len()
                invariant
                    board.wf(),
                    board.spec_pos() == pos,
                    board.spec_trace() == trace,
                    board.spec_size() == old(board).spec_size(),
                    w == board.spec_size().width,
                    h == board.spec_size().height,
                    trace.len() + depth <= isize::MAX,
                    depth >= 1,
                    if is_o {
                        board.spec_prune().beta == isize::MAX
                    } else {
                        board.spec_prune().alpha == isize::MIN
                    },
                    tile == spec_tile_of(is_o),
                    indices@ == coords,
                    coords == spec_indices(w, h),
                    i <= indices@.len(),
                    child_values(pos, trace, w, h, is_o, depth as nat, coords) == models(moves@)
                        + child_values(pos, trace, w, h, is_o, depth as nat, coords.skip(i as int)),
                    is_printing ==> tree_level(*tree) == tree_level(*old(tree)) + 1,
                    is_printing ==> tree_level(*old(tree)) + depth + 1 <= u32::MAX,
                    !is_printing ==> *tree == *old(tree),
                ensures
                    i == indices@.len(),
                decreases indices@.len() - i,
            {
                let (x, y) = indices[i];
                let ghost suffix = coords.skip(i as int);
                let turn = Turn::new(x, y, tile);
                proof {
                    assert(suffix[0] == coords[i as int]);
                    assert(suffix.drop_first() =~= coords.skip(i + 1));
                    assert(turn == (Turn { x: suffix[0].0, y: suffix[0].1, tile: spec_tile_of(is_o) }));
                    assert(child_values(pos, trace, w, h, is_o, depth as nat, suffix) == (
                    if legal_at(pos, w, h, turn) {
                        seq![
                            minimax(
                                play_at(pos, turn),
                                trace.push(turn),
                                w,
                                h,
                                !is_o,
                                (depth - 1) as nat,
                            ),
                        ] + child_values(pos, trace, w, h, is_o, depth as nat, coords.skip(i + 1))
                    } else {
                        child_values(pos, trace, w, h, is_o, depth as nat, coords.skip(i + 1))
                    }));
                }
                let played = board.play(turn);
                if let Some(mut evaluate) = played {
                    let game = Evaluation::game_inner(
                        &mut evaluate,
                        tree,
                        is_printing,
                        !is_o,
                        depth - 1,
                    );
                    if board.is_pruning(&game, is_o) {
                        proof {
                            assert(false);
                        }
                        break ;
                    }
                    board.apply(&game, is_o);

                    proof {
                        assert(game.model() == minimax(
                            play_at(pos, turn),
                            trace.push(turn),
                            w,
                            h,
                            !is_o,
                            (depth - 1) as nat,
                        ));
                    }
                    let ghost pre_moves = moves@;
                    moves.push(game);
                    proof {
                        let rest = child_values(pos, trace, w, h, is_o, depth as nat, coords.skip(i + 1));
                        assert(moves@ == pre_moves.push(game));
                        assert(models(moves@) =~= models(pre_moves) + seq![game.model()]);
                        assert((models(pre_moves) + seq![game.model()]) + rest =~= models(
                            pre_moves,
                        ) + (seq![game.model()] + rest));
                        assert(child_values(pos, trace, w, h, is_o, depth as nat, coords)
                            == models(moves@) + rest);
                    }
                }
                i += 1;
            }
            if is_printing {
                tree_end_child(tree);
            }
            proof {
                assert(coords.skip(indices@.len() as int) =~= Seq::<(usize, usize)>::empty());
                assert(child_values(pos, trace, w, h, is_o, depth as nat, coords) =~= models(
                    moves@,
                ));
                let (ey, ex) = choose|ey: int, ex: int|
                    0 <= ey < h && 0 <= ex < w && pos[ey][ex] == Tile::Empty;
                lemma_spec_indices_contains(w, h, ex as usize, ey as usize);
                lemma_child_values_some(
                    pos,
                    trace,
                    w,
                    h,
                    is_o,
                    depth as nat,
                    coords,
                    (ex as usize, ey as usize),
                );
            }
            Evaluation::by_result(moves, is_o)
        }
    }
}

/// The outcomes that a sequence of evaluations stands for, in order.
pub open spec fn models(s: Seq<Evaluation>) -> Seq<GameValue> {
    s.map_values(|e: Evaluation| e.model())
}

/// The search depth a call asks for: the given limit, or one more than the
/// number of the board's cells when none is given.
pub open spec fn spec_depth_of(b: Board, max_depth: Option<usize>) -> int {
    match max_depth {
        Some(d) => d as int,
        None => b.spec_size().width * b.spec_size().height + 1,
    }
}

/// The mark the acting side places: O for the maximizer, X for the minimizer.
pub open spec fn spec_tile_of(is_o: bool) -> Tile {
    if is_o {
        Tile::O
    } else {
        Tile::X
    }
}

/// Selects the best of a non-empty sequence of outcomes: the maximum score
/// when `is_o` holds, keeping the last on ties, else the minimum score,
/// keeping the first on ties — the selection the search makes among the
/// candidate continuations it has collected.
pub open spec fn best(vals: Seq<GameValue>, is_o: bool) -> GameValue
    recommends
        vals.len() > 0,
    decreases vals.len(),
{
    if vals.len() <= 1 {
        vals[0]
    } else {
        let prev = best(vals.drop_last(), is_o);
        let last = vals.last();
        if is_o {
            if last.score >= prev.score {
                last
            } else {
                prev
            }
        } else {
            if last.score < prev.score {
                last
            } else {
                prev
            }
        }
    }
}

/// The outcomes of all legal continuations of a position, one per legal cell
/// of `coords` in order: each is the full search outcome of the board after
/// playing the acting side's mark on that cell, one ply deeper.
pub open spec fn child_values(
    pos: Seq<Seq<Tile>>,
    trace: Seq<Turn>,
    w: usize,
    h: usize,
    is_o: bool,
    depth: nat,
    coords: Seq<(usize, usize)>,
) -> Seq<GameValue>
    decreases depth, coords.len(),
{
    if depth == 0 || coords.len() == 0 {
        Seq::empty()
    } else {
        let c = coords[0];
        let turn = Turn { x: c.0, y: c.1, tile: spec_tile_of(is_o) };
        let rest = child_values(pos, trace, w, h, is_o, depth, coords.drop_first());
        if legal_at(pos, w, h, turn) {
            seq![
                minimax(
                    play_at(pos, turn),
                    trace.push(turn),
                    w,
                    h,
                    !is_o,
                    (depth - 1) as nat,
                ),
            ] + rest
        } else {
            rest
        }
    }
}

/// The outcome of the search from a position: the terminal result if the
/// game has ended; a draw-scored cutoff if the remaining depth is exhausted;
/// otherwise the best, for the acting side, of the outcomes of all legal
/// continuations, taken in row-major order.
pub open spec fn minimax(
    pos: Seq<Seq<Tile>>,
    trace: Seq<Turn>,
    w: usize,
    h: usize,
    is_o: bool,
    depth: nat,
) -> GameValue
    decreases depth, spec_indices(w, h).len() + 1,
{
    match spec_evaluate(pos, w, h, trace) {
        Some(v) => v,
        None => {
            if depth == 0 {
                GameValue { score: 0, trace }
            } else {
                best(child_values(pos, trace, w, h, is_o, depth, spec_indices(w, h)), is_o)
            }
        },
    }
}

/// A legal cell among the candidate coordinates yields at least one
/// continuation outcome.
pub proof fn lemma_child_values_some(
    pos: Seq<Seq<Tile>>,
    trace: Seq<Turn>,
    w: usize,
    h: usize,
    is_o: bool,
    depth: nat,
    coords: Seq<(usize, usize)>,
    c: (usize, usize),
)
    requires
        depth >= 1,
        coords.contains(c),
        legal_at(pos, w, h, Turn { x: c.0, y: c.1, tile: spec_tile_of(is_o) }),
    ensures
        child_values(pos, trace, w, h, is_o, depth, coords).len() >= 1,
    decreases coords.len(),
{
    let c0 = coords[0];
    let turn0 = Turn { x: c0.0, y: c0.1, tile: spec_tile_of(is_o) };
    if !legal_at(pos, w, h, turn0) {
        let i = choose|i: int| 0 <= i < coords.len() && coords[i] == c;
        assert(coords.drop_first()[i - 1] == c);
        lemma_child_values_some(pos, trace, w, h, is_o, depth, coords.drop_first(), c);
    }
}

/// The outcome `e` arises from playing the acting side's mark on some legal
/// cell of the position and searching on from there.
pub open spec fn is_child_value(
    pos: Seq<Seq<Tile>>,
    trace: Seq<Turn>,
    w: usize,
    h: usize,
    is_o: bool,
    depth: nat,
    e: GameValue,
) -> bool {
    exists|t: Turn|
        {
            &&& #[trigger] legal_at(pos, w, h, t)
            &&& t.tile == spec_tile_of(is_o)
            &&& e == minimax(play_at(pos, t), trace.push(t), w, h, !is_o, (depth - 1) as nat)
        }
}

/// Every continuation outcome is the search outcome of playing the acting
/// side's mark on some legal cell.
pub proof fn lemma_child_values_elems(
    pos: Seq<Seq<Tile>>,
    trace: Seq<Turn>,
    w: usize,
    h: usize,
    is_o: bool,
    depth: nat,
    coords: Seq<(usize, usize)>,
)
    requires
        depth >= 1,
    ensures
        forall|j: int|
            0 <= j < child_values(pos, trace, w, h, is_o, depth, coords).len()
                ==> is_child_value(
                pos,
                trace,
                w,
                h,
                is_o,
                depth,
                #[trigger] child_values(pos, trace, w, h, is_o, depth, coords)[j],
            ),
    decreases coords.len(),
{
    if coords.len() == 0 {
    } else {
        lemma_child_values_elems(pos, trace, w, h, is_o, depth, coords.drop_first());
        let cv = child_values(pos, trace, w, h, is_o, depth, coords);
        let rest = child_values(pos, trace, w, h, is_o, depth, coords.drop_first());
        let c = coords[0];
        let turn0 = Turn { x: c.0, y: c.1, tile: spec_tile_of(is_o) };
        assert forall|j: int| 0 <= j < cv.len() implies is_child_value(
            pos,
            trace,
            w,
            h,
            is_o,
            depth,
            cv[j],
        ) by {
            if legal_at(pos, w, h, turn0) {
                if j == 0 {
                    assert(legal_at(pos, w, h, turn0) && turn0.tile == spec_tile_of(is_o) && cv[0]
                        == minimax(
                        play_at(pos, turn0),
                        trace.push(turn0),
                        w,
                        h,
                        !is_o,
                        (depth - 1) as nat,
                    ));
                } else {
                    assert(cv[j] == rest[j - 1]);
                }
            } else {
                assert(cv[j] == rest[j]);
            }
        }
    }
}

/// Bounds on a search outcome: its trace is no shorter than the position's
/// and grows by at most the depth; its score lies between the fastest
/// possible loss and the fastest possible win at that trace length; and a
/// non-terminal position searched to positive depth yields a strictly longer
/// trace.
pub proof fn lemma_minimax_bounds(
    pos: Seq<Seq<Tile>>,
    trace: Seq<Turn>,
    w: usize,
    h: usize,
    is_o: bool,
    depth: nat,
)
    requires
        trace.len() + depth <= isize::MAX,
    ensures
        ({
            let v = minimax(pos, trace, w, h, is_o, depth);
            &&& trace.len() <= v.trace.len() <= trace.len() + depth
            &&& v.score <= isize::MAX - v.trace.len()
            &&& v.score >= isize::MIN + v.trace.len()
            &&& (spec_evaluate(pos, w, h, trace) is None && depth >= 1) ==> v.trace.len()
                >= trace.len() + 1
        }),
    decreases depth, spec_indices(w, h).len() + 1,
{
    let v = minimax(pos, trace, w, h, is_o, depth);
    match spec_evaluate(pos, w, h, trace) {
        Some(e) => {},
        None => {
            if depth >= 1 {
                let coords = spec_indices(w, h);
                let cv = child_values(pos, trace, w, h, is_o, depth, coords);
                let (ey, ex) = choose|ey: int, ex: int|
                    0 <= ey < h && 0 <= ex < w && pos[ey][ex] == Tile::Empty;
                lemma_spec_indices_contains(w, h, ex as usize, ey as usize);
                lemma_child_values_some(
                    pos,
                    trace,
                    w,
                    h,
                    is_o,
                    depth,
                    coords,
                    (ex as usize, ey as usize),
                );
                lemma_child_values_elems(pos, trace, w, h, is_o, depth, coords);
                assert forall|j: int| 0 <= j < cv.len() implies {
                    &&& trace.len() + 1 <= (#[trigger] cv[j]).trace.len() <= trace.len() + depth
                    &&& cv[j].score <= isize::MAX - cv[j].trace.len()
                    &&& cv[j].score >= isize::MIN + cv[j].trace.len()
                } by {
                    let t = choose|t: Turn|
                        {
                            &&& legal_at(pos, w, h, t)
                            &&& t.tile == spec_tile_of(is_o)
                            &&& cv[j] == minimax(
                                play_at(pos, t),
                                trace.push(t),
                                w,
                                h,
                                !is_o,
                                (depth - 1) as nat,
                            )
                        };
                    lemma_minimax_bounds(
                        play_at(pos, t),
                        trace.push(t),
                        w,
                        h,
                        !is_o,
                        (depth - 1) as nat,
                    );
                }
                lemma_best_in(cv, is_o);
                let j = choose|j: int| 0 <= j < cv.len() && cv[j] == best(cv, is_o);
                assert(v == cv[j]);
            }
        },
    }
}

/// The continuation outcome of a particular legal cell among the candidate
/// coordinates is one of the collected continuation outcomes.
pub proof fn lemma_child_values_member(
    pos: Seq<Seq<Tile>>,
    trace: Seq<Turn>,
    w: usize,
    h: usize,
    is_o: bool,
    depth: nat,
    coords: Seq<(usize, usize)>,
    turn: Turn,
)
    requires
        depth >= 1,
        coords.contains((turn.x, turn.y)),
        legal_at(pos, w, h, turn),
        turn.tile == spec_tile_of(is_o),
    ensures
        child_values(pos, trace, w, h, is_o, depth, coords).contains(
            minimax(play_at(pos, turn), trace.push(turn), w, h, !is_o, (depth - 1) as nat),
        ),
    decreases coords.len(),
{
    let cv = child_values(pos, trace, w, h, is_o, depth, coords);
    let rest = child_values(pos, trace, w, h, is_o, depth, coords.drop_first());
    let c = coords[0];
    let turn0 = Turn { x: c.0, y: c.1, tile: spec_tile_of(is_o) };
    let m = minimax(play_at(pos, turn), trace.push(turn), w, h, !is_o, (depth - 1) as nat);
    if c == (turn.x, turn.y) {
        assert(turn0 == turn);
        assert(cv[0] == m);
    } else {
        let i = choose|i: int| 0 <= i < coords.len() && coords[i] == (turn.x, turn.y);
        assert(coords.drop_first()[i - 1] == (turn.x, turn.y));
        lemma_child_values_member(pos, trace, w, h, is_o, depth, coords.drop_first(), turn);
        let k = choose|k: int| 0 <= k < rest.len() && rest[k] == m;
        if legal_at(pos, w, h, turn0) {
            assert(cv[k + 1] == m);
        } else {
            assert(cv[k] == m);
        }
    }
}

/// A player able to complete a line in one move is assigned the score of the
/// fastest win from this position, and the search selects a line-completing
/// move: the one further move its outcome records is legal, carries the
/// acting side's mark, and completes a line for it.
pub proof fn lemma_winning_move_selected(
    pos: Seq<Seq<Tile>>,
    trace: Seq<Turn>,
    w: usize,
    h: usize,
    is_o: bool,
    depth: nat,
    turn: Turn,
)
    requires
        pos.len() == h,
        forall|y: int| 0 <= y < h ==> (#[trigger] pos[y]).len() == w,
        spec_evaluate(pos, w, h, trace) is None,
        depth >= 1,
        trace.len() + depth <= isize::MAX,
        trace.len() + 2 <= isize::MAX,
        legal_at(pos, w, h, turn),
        turn.tile == spec_tile_of(is_o),
        has_line(play_at(pos, turn), w, h, turn.tile),
    ensures
        ({
            let v = minimax(pos, trace, w, h, is_o, depth);
            &&& v.score == (if is_o {
                isize::MAX - (trace.len() + 1)
            } else {
                isize::MIN + (trace.len() + 1)
            })
            &&& v.trace.len() == trace.len() + 1
            &&& legal_at(pos, w, h, v.trace.last())
            &&& v.trace.last().tile == spec_tile_of(is_o)
            &&& has_line(play_at(pos, v.trace.last()), w, h, spec_tile_of(is_o))
        }),
{
    let coords = spec_indices(w, h);
    let cv = child_values(pos, trace, w, h, is_o, depth, coords);
    let v = minimax(pos, trace, w, h, is_o, depth);
    let ell = trace.len() as int;

    // The one-move win is among the collected continuation outcomes, and is
    // a terminal result: the win of the acting side, one ply on.
    let wpos = play_at(pos, turn);
    let wtrace = trace.push(turn);
    lemma_spec_indices_contains(w, h, turn.x, turn.y);
    lemma_child_values_member(pos, trace, w, h, is_o, depth, coords, turn);
    if !is_o {
        if has_line(wpos, w, h, Tile::O) {
            lemma_new_line_is_own(pos, w, h, turn, Tile::O);
        }
    }
    let wv = minimax(wpos, wtrace, w, h, !is_o, (depth - 1) as nat);
    let win_score: int = if is_o {
        isize::MAX - (ell + 1)
    } else {
        isize::MIN + (ell + 1)
    };
    assert(wv == GameValue { score: win_score, trace: wtrace });

    // Every collected outcome is bounded by the one-move win, so the
    // selection lands exactly on that score.
    lemma_child_values_elems(pos, trace, w, h, is_o, depth, coords);
    assert forall|j: int| 0 <= j < cv.len() implies {
        &&& trace.len() + 1 <= (#[trigger] cv[j]).trace.len()
        &&& cv[j].score <= isize::MAX - cv[j].trace.len()
        &&& cv[j].score >= isize::MIN + cv[j].trace.len()
    } by {
        let t = choose|t: Turn|
            {
                &&& legal_at(pos, w, h, t)
                &&& t.tile == spec_tile_of(is_o)
                &&& cv[j] == minimax(
                    play_at(pos, t),
                    trace.push(t),
                    w,
                    h,
                    !is_o,
                    (depth - 1) as nat,
                )
            };
        lemma_minimax_bounds(play_at(pos, t), trace.push(t), w, h, !is_o, (depth - 1) as nat);
    }
    lemma_best_in(cv, is_o);
    lemma_best_bound(cv, is_o);
    let jw = choose|j: int| 0 <= j < cv.len() && cv[j] == wv;
    assert(v == best(cv, is_o));
    assert(v.score == win_score);

    // The selected outcome comes from some legal move; a move that does not
    // complete a line cannot reach the fastest-win score, so the selected
    // move completes one.
    let jv = choose|j: int| 0 <= j < cv.len() && cv[j] == v;
    let t2 = choose|t: Turn|
        {
            &&& legal_at(pos, w, h, t)
            &&& t.tile == spec_tile_of(is_o)
            &&& cv[jv] == minimax(play_at(pos, t), trace.push(t), w, h, !is_o, (depth - 1) as nat)
        };
    let cpos = play_at(pos, t2);
    let ctrace = trace.push(t2);
    match spec_evaluate(cpos, w, h, ctrace) {
        Some(e) => {
            assert(v == e);
            if has_line(cpos, w, h, spec_tile_of(is_o)) {
                assert(v.trace == ctrace);
                assert(v.trace.last() == t2);
            } else {
                if is_o {
                    assert(v.score != win_score);
                } else {
                    if has_line(cpos, w, h, Tile::O) {
                        lemma_new_line_is_own(pos, w, h, t2, Tile::O);
                    }
                    assert(v.score != win_score);
                }
            }
        },
        None => {
            lemma_minimax_bounds(cpos, ctrace, w, h, !is_o, (depth - 1) as nat);
            if depth - 1 == 0 {
                assert(v.score == 0);
                assert(v.score != win_score);
            } else {
                assert(v.trace.len() >= trace.len() + 2);
                assert(v.score != win_score);
            }
        },
    }
}

/// The selected outcome is one of the candidates.
pub proof fn lemma_best_in(vals: Seq<GameValue>, is_o: bool)
    requires
        vals.len() > 0,
    ensures
        vals.contains(best(vals, is_o)),
    decreases vals.len(),
{
    if vals.len() == 1 {
        assert(vals[0] == best(vals, is_o));
    } else {
        lemma_best_in(vals.drop_last(), is_o);
        if best(vals, is_o) == vals.last() {
        } else {
            let i = choose|i: int|
                0 <= i < vals.drop_last().len() && vals.drop_last()[i] == best(vals, is_o);
            assert(vals[i] == best(vals, is_o));
        }
    }
}

/// The selected outcome is at least as good, for the selecting side, as every
/// candidate.
pub proof fn lemma_best_bound(vals: Seq<GameValue>, is_o: bool)
    requires
        vals.len() > 0,
    ensures
        forall|i: int|
            0 <= i < vals.len() ==> if is_o {
                (#[trigger] vals[i]).score <= best(vals, is_o).score
            } else {
                (#[trigger] vals[i]).score >= best(vals, is_o).score
            },
    decreases vals.len(),
{
    if vals.len() == 1 {
    } else {
        lemma_best_bound(vals.drop_last(), is_o);
        assert forall|i: int| 0 <= i < vals.len() implies if is_o {
            (#[trigger] vals[i]).score <= best(vals, is_o).score
        } else {
            (#[trigger] vals[i]).score >= best(vals, is_o).score
        } by {
            if i < vals.len() - 1 {
                assert(vals.drop_last()[i] == vals[i]);
            }
        }
    }
}

} // verus!
