use crate::turn::Turn;
use vstd::prelude::*;

verus! {

/// Encapsulates a turn vector, only giving access to what is needed. The
/// insertion order is the play order: index 0 is the first move made this
/// game.
#[derive(Debug)]
pub struct Trace {
    order: Vec<Turn>,
}

impl View for Trace {
    type V = Seq<Turn>;

    closed spec fn view(&self) -> Seq<Turn> {
        self.order@
    }
}

impl Clone for Trace {
    /// Clones the move list, keeping every move.
    fn clone(&self) -> (r: Self)
        ensures
            r@ == self@,
    {
        let mut order: Vec<Turn> = Vec::new();
        let mut i: usize = 0;
        while i < self.order.len()
            invariant
                i <= self.order.len(),
                order@ == self.order@.subrange(0, i as int),
            decreases self.order.len() - i,
        {
            order.push(self.order[i]);
            proof {
                assert(order@ =~= self.order@.subrange(0, i + 1));
            }
            i += 1;
        }
        proof {
            assert(order@ =~= self.order@);
        }
        Trace { order }
    }
}

impl Trace {
    /// Creates a new instance of a move list.
    pub fn new() -> (t: Trace)
        ensures
            t@ == Seq::<Turn>::empty(),
    {
        Trace { order: Vec::new() }
    }

    /// Append a move to the end of the move list.
    pub fn push(&mut self, turn: Turn)
        ensures
            final(self)@ == old(self)@.push(turn),
    {
        self.order.push(turn);
    }

    /// Gets the length of the move list.
    pub fn len(&self) -> (n: isize)
        requires
            self@.len() <= isize::MAX,
        ensures
            n == self@.len(),
    {
        self.order.len() as isize
    }

    /// Gets the move at the given index; index 0 is the first move that was
    /// played.
    pub fn get(&self, index: usize) -> (r: Option<&Turn>)
        ensures
            match r {
                Some(t) => index < self@.len() && *t == self@[index as int],
                None => index >= self@.len(),
            },
    {
        if index < self.order.len() {
            Some(&self.order[index])
        } else {
            None
        }
    }
}

} // verus!
