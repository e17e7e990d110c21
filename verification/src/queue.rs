//! A list that is taken apart from its start, record by record, so that
//! records can be moved out of it in their order.

use vstd::prelude::*;
use crate::executor::reversed;

verus! {

/// The records still to be taken, in their order.
pub struct Queue<T> {
    /// The records still to be taken, the last first.
    rest: Vec<T>,
}

impl<T> View for Queue<T> {
    type V = Seq<T>;

    closed spec fn view(&self) -> Seq<T> {
        self.rest@.reverse()
    }
}

impl<T> Queue<T> {
    /// The records of a list, to be taken from its start.
    pub fn new(items: Vec<T>) -> (q: Queue<T>)
        ensures
            q@ == items@,
    {
        let rest = reversed(items);
        assert(items@.reverse().reverse() =~= items@);
        Queue { rest }
    }

    /// The number of records still to be taken.
    pub fn len(&self) -> (n: usize)
        ensures
            n == self@.len(),
    {
        self.rest.len()
    }

    /// Takes the first of the records; none where none is left.
    pub fn next(&mut self) -> (x: Option<T>)
        ensures
            old(self)@.len() == 0 ==> x is None && final(self)@ == old(self)@,
            old(self)@.len() > 0 ==> x == Some(old(self)@[0]) && final(self)@ == old(self)@.skip(1),
    {
        let ghost before = self.rest@;
        let x = self.rest.pop();
        proof {
            if before.len() > 0 {
                assert(self.rest@.reverse() =~= before.reverse().skip(1));
            }
        }
        x
    }
}

} // verus!
