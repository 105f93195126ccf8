//! A supply of scalars that is used up from the front.

use vstd::prelude::*;

verus! {

/// Scalars drawn ahead of time, handed out one by one in the order in which
/// they were drawn. Building a network from a `Draws` threads one exclusive
/// handle through every layer and neuron, so the order of consumption is
/// the order of the calls.
#[derive(Debug)]
pub struct Draws<S> {
    values: Vec<S>,
    position: usize,
}

impl<S> Draws<S> {
    #[verifier::type_invariant]
    spec fn position_in_bounds(&self) -> bool {
        self.position <= self.values@.len()
    }

    /// The scalars not handed out yet, next one first.
    pub closed spec fn pending(&self) -> Seq<S> {
        self.values@.skip(self.position as int)
    }
}

impl<S: Copy> Draws<S> {
    /// A supply that hands out `values` from first to last.
    pub fn new(values: Vec<S>) -> (draws: Self)
        ensures
            draws.pending() == values@,
    {
        Draws { values, position: 0 }
    }

    /// How many scalars are left.
    pub fn remaining(&self) -> (count: usize)
        ensures
            count == self.pending().len(),
    {
        proof {
            use_type_invariant(self);
        }
        self.values.len() - self.position
    }

    /// Hands out the next scalar, or `None` when none is left.
    pub fn next(&mut self) -> (value: Option<S>)
        ensures
            match value {
                Some(v) => {
                    &&& old(self).pending().len() > 0
                    &&& v == old(self).pending()[0]
                    &&& final(self).pending() == old(self).pending().skip(1)
                },
                None => {
                    &&& old(self).pending().len() == 0
                    &&& final(self).pending() == old(self).pending()
                },
            },
    {
        proof {
            use_type_invariant(&*self);
        }
        if self.position < self.values.len() {
            let v = self.values[self.position];
            self.position = self.position + 1;
            assert(self.pending() =~= old(self).pending().skip(1));
            Some(v)
        } else {
            None
        }
    }
}

} // verus!
