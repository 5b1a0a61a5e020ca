//! Going through the elements of a growable array.

use vstd::prelude::*;
use crate::vec::StorageVec;

verus! {

/// The elements of an array that are still to come, from both ends.
#[derive(Debug)]
pub struct Iter<'a, T> {
    /// The array.
    vec: &'a StorageVec<T>,
    /// The index of the next element from the front.
    begin: u32,
    /// The index after that of the next element from the back.
    end: u32,
}

impl<'a, T> View for Iter<'a, T> {
    type V = Seq<T>;

    /// The elements that are still to come, in their order.
    closed spec fn view(&self) -> Seq<T> {
        self.vec@.subrange(self.begin as int, self.end as int)
    }
}

impl<'a, T> Iter<'a, T> {
    /// The bounds lie within the array, which is well formed.
    pub closed spec fn wf(&self) -> bool {
        &&& self.vec.wf()
        &&& self.begin <= self.end <= self.vec@.len()
    }

    /// All elements of `vec`.
    pub fn new(vec: &'a StorageVec<T>) -> (iter: Self)
        requires
            vec.wf(),
        ensures
            iter.wf(),
            iter@ == vec@,
    {
        let iter = Self { vec, begin: 0, end: vec.len() };
        iter
    }

    /// The next element from the front, which is then no longer to come.
    /// `None` once none is left.
    pub fn next(&mut self) -> (element: Option<&'a T>)
        requires
            old(self).wf(),
        ensures
            final(self).wf(),
            old(self)@.len() == 0 ==> element.is_none() && final(self)@ == old(self)@,
            old(self)@.len() > 0 ==> element.is_some() && *element.unwrap() == old(self)@.first()
                && final(self)@ == old(self)@.drop_first(),
    {
        if self.begin == self.end {
            return None;
        }
        let cur = self.begin;
        self.begin += 1;
        self.vec.get(cur)
    }

    /// The number of elements that are still to come, as the lower and the
    /// upper bound of it.
    pub fn size_hint(&self) -> (bounds: (usize, Option<usize>))
        requires
            self.wf(),
        ensures
            bounds.0 == self@.len(),
            bounds.1 == Some(self@.len() as usize),
    {
        let remaining = (self.end - self.begin) as usize;
        (remaining, Some(remaining))
    }

    /// The next element from the back, which is then no longer to come.
    /// `None` once none is left.
    pub fn next_back(&mut self) -> (element: Option<&'a T>)
        requires
            old(self).wf(),
        ensures
            final(self).wf(),
            old(self)@.len() == 0 ==> element.is_none() && final(self)@ == old(self)@,
            old(self)@.len() > 0 ==> element.is_some() && *element.unwrap() == old(self)@.last()
                && final(self)@ == old(self)@.drop_last(),
    {
        if self.begin == self.end {
            return None;
        }
        self.end -= 1;
        self.vec.get(self.end)
    }
}

/// The elements of an array that are still to come, each for changing it in
/// place.
pub struct IterMut<'a, T> {
    /// The array.
    pub vec: &'a mut StorageVec<T>,
    /// The index of the next element.
    pub begin: u32,
    /// The index after that of the last element that is to come.
    pub end: u32,
}

impl<'a, T> IterMut<'a, T> {
    /// The bounds lie within the array, which is well formed.
    pub open spec fn wf(&self) -> bool {
        &&& self.vec.wf()
        &&& self.begin <= self.end <= self.vec@.len()
    }

    /// All elements of `vec`.
    pub fn new(vec: &'a mut StorageVec<T>) -> (iter: Self)
        requires
            old(vec).wf(),
        ensures
            iter.wf(),
            *iter.vec == *old(vec),
            *final(iter.vec) == *final(vec),
            iter.begin == 0,
            iter.end == old(vec)@.len(),
    {
        let end = vec.len();
        Self { vec, begin: 0, end }
    }

    /// The next element, for changing it in place; it is then no longer to
    /// come. `None` once none is left.
    pub fn next(&mut self) -> (element: Option<&mut T>)
        requires
            old(self).wf(),
        ensures
            *final(final(self).vec) == *final(old(self).vec),
            final(self).end == old(self).end,
            element.is_some() == (old(self).begin < old(self).end),
            element.is_none() ==> final(self).begin == old(self).begin && final(self).vec@ == old(
                self).vec@,
            element.is_some() ==> final(self).begin == old(self).begin + 1 && *element.unwrap()
                == old(self).vec@[old(self).begin as int] && final(self).vec@ == old(
                self).vec@.update(old(self).begin as int, *final(element.unwrap())),
            final(self).wf(),
    {
        if self.begin == self.end {
            return None;
        }
        let cur = self.begin;
        self.begin += 1;
        self.vec.get_mut(cur)
    }
}

} // verus!
