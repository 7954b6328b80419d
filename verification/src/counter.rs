use vstd::prelude::*;

verus! {

/// A counter: the state that the operations of a shared counter read and change
/// while they hold its lock.
pub struct Counter {
    value: usize,
}

impl View for Counter {
    type V = usize;

    closed spec fn view(&self) -> usize {
        self.value
    }
}

impl Counter {
    /// A counter that stands at `val`.
    pub fn new(val: usize) -> (r: Self)
        ensures
            r@ == val,
    {
        Counter { value: val }
    }

    /// Raises the counter by `by`.
    pub fn increment(&mut self, by: usize)
        requires
            old(self)@ + by <= usize::MAX,
        ensures
            final(self)@ == old(self)@ + by,
    {
        self.value = self.value + by;
    }

    /// Where the counter stands.
    pub fn get(&self) -> (r: usize)
        ensures
            r == self@,
    {
        self.value
    }

    /// Raises the counter by `by` if it stands at `test`, and tells whether it did.
    pub fn compare_and_inc(&mut self, test: usize, by: usize) -> (r: bool)
        requires
            old(self)@ == test ==> test + by <= usize::MAX,
        ensures
            r == (old(self)@ == test),
            final(self)@ == if r {
                old(self)@ + by
            } else {
                old(self)@ as int
            },
    {
        let result = self.value == test;
        if result {
            self.value = self.value + by;
        }
        result
    }
}

} // verus!
