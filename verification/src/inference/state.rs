//! The hidden state of a model layer.

use crate::number::Single;
use vstd::prelude::*;

verus! {

/// A table of samples, row by row.
#[derive(Debug)]
pub struct HiddenState {
    pub rows: usize,
    pub cols: usize,
    pub values: Vec<Single>,
}

impl HiddenState {
    /// Every place of the table has a value.
    pub open spec fn wf(&self) -> bool {
        self.values@.len() == self.rows * self.cols
    }

    /// Whether two states hold the same table.
    pub open spec fn same_table(&self, other: &Self) -> bool {
        self.rows == other.rows && self.cols == other.cols && self.values@ == other.values@
    }

    /// A state of zeros.
    pub fn new(rows: usize, cols: usize) -> (r: Self)
        requires
            rows * cols <= usize::MAX,
        ensures
            r.wf(),
            r.rows == rows,
            r.cols == cols,
            forall|i: int| 0 <= i < r.values@.len() ==> (#[trigger] r.values@[i]).bits == 0,
    {
        let mut values: Vec<Single> = Vec::new();
        let n: usize = rows * cols;
        let mut i: usize = 0;
        while i < n
            invariant
                i <= n,
                values@.len() == i,
                forall|k: int| 0 <= k < i ==> (#[trigger] values@[k]).bits == 0,
            decreases n - i,
        {
            values.push(Single::zero());
            i += 1;
        }
        HiddenState { rows, cols, values }
    }

    /// A copy of the state.
    pub fn copy(&self) -> (r: Self)
        ensures
            r.same_table(self),
            self.wf() ==> r.wf(),
    {
        let mut values: Vec<Single> = Vec::new();
        values.extend_from_slice(self.values.as_slice());
        assert(values@ =~= self.values@);
        HiddenState { rows: self.rows, cols: self.cols, values }
    }

    /// Whether `after` is the table with every value set to zero.
    pub open spec fn zeroed_to(&self, after: &Self) -> bool {
        &&& after.rows == self.rows
        &&& after.cols == self.cols
        &&& after.values@ == Seq::new(self.values@.len(), |i: int| Single { bits: 0 })
    }

    /// Sets every value to zero.
    pub fn reset(&mut self)
        ensures
            old(self).zeroed_to(final(self)),
    {
        let n: usize = self.values.len();
        let mut i: usize = 0;
        while i < n
            invariant
                i <= n,
                n == self.values@.len(),
                self.values@.len() == old(self).values@.len(),
                self.rows == old(self).rows,
                self.cols == old(self).cols,
                forall|k: int| 0 <= k < i ==> (#[trigger] self.values@[k]).bits == 0,
            decreases n - i,
        {
            self.values.set(i, Single::zero());
            i += 1;
        }
        assert(self.values@ =~= Seq::new(old(self).values@.len(), |k: int| Single { bits: 0 }));
    }
}

} // verus!
