//! Going through the elements of an array with a fixed capacity.

use vstd::prelude::*;
use crate::smallvec::SmallVec;

verus! {

/// The elements of an array that are still to come, from both ends.
#[derive(Debug)]
pub struct Iter<'a, T, const N: u32> {
    /// The array.
    vec: &'a SmallVec<T, N>,
    /// The index of the next element from the front.
    begin: u32,
    /// The index after that of the next element from the back.
    end: u32,
}

impl<'a, T, const N: u32> View for Iter<'a, T, N> {
    type V = Seq<T>;

    /// The elements that are still to come, in their order.
    closed spec fn view(&self) -> Seq<T> {
        self.vec@.subrange(self.begin as int, self.end as int)
    }
}

impl<'a, T, const N: u32> Iter<'a, T, N> {
    /// The bounds lie within the array, which is well formed.
    pub closed spec fn wf(&self) -> bool {
        &&& self.vec.wf()
        &&& self.begin <= self.end <= self.vec@.len()
    }

    /// All elements of `vec`.
    pub fn new(vec: &'a SmallVec<T, N>) -> (iter: Self)
        requires
            vec.wf(),
        ensures
            iter.wf(),
            iter@ == vec@,
    {
        let iter = Self { vec, begin: 0, end: vec.len() };
        iter
    }

    /// The next element from the front, which is then no longer to come.
    /// `None` once none is left.
    pub fn next(&mut self) -> (element: Option<&'a T>)
        requires
            old(self).wf(),
        ensures
            final(self).wf(),
            old(self)@.len() == 0 ==> element.is_none() && final(self)@ == old(self)@,
            old(self)@.len() > 0 ==> element.is_some() && *element.unwrap() == old(self)@.first()
                && final(self)@ == old(self)@.drop_first(),
    {
        if self.begin == self.end {
            return None;
        }
        let cur = self.begin;
        self.begin += 1;
        self.vec.get(cur)
    }

    /// The number of elements that are still to come, as the lower and the
    /// upper bound of it.
    pub fn size_hint(&self) -> (bounds: (usize, Option<usize>))
        requires
            self.wf(),
        ensures
            bounds.0 == self@.len(),
            bounds.1 == Some(self@.len() as usize),
    {
        let remaining = (self.end - self.begin) as usize;
        (remaining, Some(remaining))
    }

    /// The next element from the back, which is then no longer to come.
    /// `None` once none is left.
    pub fn next_back(&mut self) -> (element: Option<&'a T>)
        requires
            old(self).wf(),
        ensures
            final(self).wf(),
            old(self)@.len() == 0 ==> element.is_none() && final(self)@ == old(self)@,
            old(self)@.len() > 0 ==> element.is_some() && *element.unwrap() == old(self)@.last()
                && final(self)@ == old(self)@.drop_last(),
    {
        if self.begin == self.end {
            return None;
        }
        self.end -= 1;
        self.vec.get(self.end)
    }
}

} // verus!
