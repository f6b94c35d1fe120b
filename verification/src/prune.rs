use crate::evaluation::Evaluation;
use vstd::prelude::*;

verus! {

/// Contains an alpha and beta value meant for minimax algorithms. One
/// instance is owned by each board snapshot; it records, while that board's
/// children are explored, the best value seen so far for each perspective.
#[derive(Clone, Copy, PartialEq, Eq, Structural, Debug)]
pub struct Prune {
    pub alpha: isize,
    pub beta: isize,
}

/// The thresholds after folding in a result: the alpha side raises alpha with
/// `max`, the beta side raises beta with `max` as well — the recorded
/// behaviour of this heuristic, kept as it stands.
pub open spec fn spec_apply(p: Prune, result: isize, is_alpha: bool) -> Prune {
    if is_alpha {
        Prune {
            alpha: if p.alpha >= result {
                p.alpha
            } else {
                result
            },
            beta: p.beta,
        }
    } else {
        Prune {
            alpha: p.alpha,
            beta: if p.beta >= result {
                p.beta
            } else {
                result
            },
        }
    }
}

impl Prune {
    /// Creates a new instance of a prune that automatically sets the alpha
    /// and beta values to the extremes of the integer domain.
    pub fn new() -> (p: Prune)
        ensures
            p == (Prune { alpha: isize::MIN, beta: isize::MAX }),
    {
        Prune { alpha: isize::MIN, beta: isize::MAX }
    }

    /// Applies the evaluation given and updates the Prune object according to
    /// the boolean passed in. Both branches raise their threshold with `max`;
    /// that the beta side also uses `max` is the recorded behaviour of this
    /// heuristic, kept as it stands.
    pub fn apply(&mut self, evaluation: &Evaluation, is_alpha: bool)
        ensures
            *final(self) == spec_apply(*old(self), evaluation.result, is_alpha),
    {
        if is_alpha {
            self.alpha = self.alpha.max(evaluation.result);
        } else {
            self.beta = self.beta.max(evaluation.result);
        }
    }

    /// Determines whether the current evaluation branch should be pruned
    /// based on the values of this Prune object.
    pub fn is_pruning(&self, evaluation: &Evaluation, is_alpha: bool) -> (r: bool)
        ensures
            r == (if is_alpha {
                self.beta < evaluation.result
            } else {
                self.alpha > evaluation.result
            }),
    {
        if is_alpha {
            self.beta < evaluation.result
        } else {
            self.alpha > evaluation.result
        }
    }
}

} // verus!
