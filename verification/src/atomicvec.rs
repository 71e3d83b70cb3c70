use vstd::prelude::*;
use vstd::pervasive::VecAdditionalExecFns;

verus! {

/// Fixed-length array of slot cells backing one table generation.
///
/// A cell is `None` until a holder is installed. In the concurrent
/// protocol every cell is a word-sized atomic; here each update is a
/// whole-cell exchange, which plays the role of the winning
/// compare-and-swap.
pub struct AtomicVec<T> {
    v: Vec<Option<T>>,
}

impl<T> View for AtomicVec<T> {
    type V = Seq<Option<T>>;

    closed spec fn view(&self) -> Seq<Option<T>> {
        self.v@
    }
}

impl<T> AtomicVec<T> {
    /// A fresh array of `size` empty cells.
    pub fn with_capacity(size: usize) -> (r: AtomicVec<T>)
        ensures
            r@.len() == size,
            forall|i: int| 0 <= i < size ==> r@[i] is None,
    {
        let mut v: Vec<Option<T>> = Vec::new();
        let mut n: usize = 0;
        while n < size
            invariant
                n <= size,
                v@.len() == n,
                forall|i: int| 0 <= i < n ==> v@[i] is None,
            decreases size - n,
        {
            v.push(None);
            n = n + 1;
        }
        AtomicVec { v }
    }

    /// Read the cell at `index`.
    pub fn load(&self, index: usize) -> (c: &Option<T>)
        requires
            index < self@.len(),
        ensures
            *c == self@[index as int],
    {
        &self.v[index]
    }

    /// Replace the cell at `index`, returning its previous contents.
    pub fn exchange(&mut self, index: usize, val: Option<T>) -> (prev: Option<T>)
        requires
            index < old(self)@.len(),
        ensures
            final(self)@ == old(self)@.update(index as int, val),
            prev == old(self)@[index as int],
    {
        let mut tmp = val;
        self.v.set_and_swap(index, &mut tmp);
        tmp
    }

    pub fn len(&self) -> (n: usize)
        ensures
            n == self@.len(),
    {
        self.v.len()
    }
}

} // verus!
