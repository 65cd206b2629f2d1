//! A thin vector wrapper that the rays record their crossings in.

use vstd::prelude::*;

verus! {

/// An append-only list of values, viewed as the sequence of its
/// elements.
#[derive(Clone, Debug)]
pub struct DisplayVec<T>(Vec<T>);

impl<T> View for DisplayVec<T> {
    type V = Seq<T>;

    closed spec fn view(&self) -> Seq<T> {
        self.0@
    }
}

impl<T> DisplayVec<T> {
    /// An empty list.
    pub fn new() -> (r: DisplayVec<T>)
        ensures
            r@ == Seq::<T>::empty(),
    {
        DisplayVec(Vec::new())
    }

    /// Number of elements.
    pub fn len(&self) -> (r: usize)
        ensures
            r == self@.len(),
    {
        self.0.len()
    }

    /// Append one element.
    pub fn push(&mut self, value: T)
        ensures
            final(self)@ == old(self)@.push(value),
    {
        self.0.push(value);
    }

    /// The element at position `i`.
    pub fn get(&self, i: usize) -> (r: &T)
        requires
            i < self@.len(),
        ensures
            *r == self@[i as int],
    {
        &self.0[i]
    }
}

} // verus!
