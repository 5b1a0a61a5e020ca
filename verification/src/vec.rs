//! A growable array without a capacity of its own.

use vstd::prelude::*;
use crate::chunk::LazyChunk;
use crate::iter::{Iter, IterMut};
use crate::lazy::{CacheEntry, Lazy};

verus! {

/// A sequence that grows at its end, of up to `u32::MAX` elements. The
/// elements lie in the first cells of a chunk, and the length in a cell of
/// its own.
#[derive(Debug)]
pub struct StorageVec<T> {
    /// The number of elements.
    len: Lazy<u32>,
    /// The cells of the elements.
    elems: LazyChunk<T>,
}

impl<T> View for StorageVec<T> {
    type V = Seq<T>;

    /// The elements in their order.
    closed spec fn view(&self) -> Seq<T> {
        Seq::new(self.stored_len() as nat, |i: int| self.elems@[i as u32])
    }
}

impl<T> StorageVec<T> {
    /// The length that the cell of the length holds.
    pub closed spec fn stored_len(&self) -> u32 {
        match self.len@ {
            CacheEntry::Present(len) => len,
            _ => 0,
        }
    }

    /// The array is well formed: its length is known, and the cells below
    /// the length hold a value each.
    pub closed spec fn wf(&self) -> bool {
        &&& self.len@ is Present
        &&& forall|i: u32| i < self.stored_len() ==> self.elems@.contains_key(i)
    }

    /// An array without elements.
    pub fn new() -> (vec: Self)
        ensures
            vec.wf(),
            vec@ == Seq::<T>::empty(),
    {
        let vec = Self { len: Lazy::new(0), elems: LazyChunk::new() };
        vec
    }

    /// The number of cells that an array takes in the store: one for the
    /// length and one for each index.
    pub fn footprint() -> (cells: u64)
        ensures
            cells == 1 + (u32::MAX + 1),
    {
        Lazy::<u32>::footprint() + LazyChunk::<T>::footprint()
    }

    /// The number of elements.
    pub fn len(&self) -> (len: u32)
        requires
            self.wf(),
        ensures
            len == self@.len(),
    {
        match self.len.get() {
            Some(len) => *len,
            None => 0,
        }
    }

    /// The elements from the first to the last, one at a time.
    pub fn iter(&self) -> (iter: Iter<'_, T>)
        requires
            self.wf(),
        ensures
            iter.wf(),
            iter@ == self@,
    {
        Iter::new(self)
    }

    /// The elements from the first to the last, one at a time, each for
    /// changing it in place.
    pub fn iter_mut(&mut self) -> (iter: IterMut<'_, T>)
        requires
            old(self).wf(),
        ensures
            iter.wf(),
            *iter.vec == *old(self),
            *final(iter.vec) == *final(self),
            iter.begin == 0,
            iter.end == old(self)@.len(),
    {
        IterMut::new(self)
    }

    /// The element at `index`, if there is one.
    pub fn get(&self, index: u32) -> (element: Option<&T>)
        requires
            self.wf(),
        ensures
            element.is_some() == (index < self@.len()),
            element.is_some() ==> *element.unwrap() == self@[index as int],
    {
        if index < self.len() {
            self.elems.get(index)
        } else {
            None
        }
    }

    /// The element at `index`, if there is one, for changing it in place.
    pub fn get_mut(&mut self, index: u32) -> (element: Option<&mut T>)
        requires
            old(self).wf(),
        ensures
            element.is_some() == (index < old(self)@.len()),
            element.is_some() ==> *element.unwrap() == old(self)@[index as int],
            element.is_some() ==> final(self)@ == old(self)@.update(
                index as int,
                *final(element.unwrap()),
            ),
            element.is_none() ==> final(self)@ == old(self)@,
            final(self).wf(),
    {
        if index < self.len() {
            self.elems.get_mut(index)
        } else {
            None
        }
    }

    /// Appends `value`.
    pub fn push(&mut self, value: T)
        requires
            old(self).wf(),
            old(self)@.len() < u32::MAX,
        ensures
            final(self).wf(),
            final(self)@ == old(self)@.push(value),
    {
        let last_index = self.len();
        self.len.set(last_index + 1);
        self.elems.put(last_index, Some(value));
    }

    /// The element at `index`, for changing it in place.
    pub fn index_mut(&mut self, index: u32) -> (element: &mut T)
        requires
            old(self).wf(),
            index < old(self)@.len(),
        ensures
            *element == old(self)@[index as int],
            final(self)@ == old(self)@.update(index as int, *final(element)),
            final(self).wf(),
    {
        match self.get_mut(index) {
            Some(element) => element,
            None => vstd::pervasive::unreached(),
        }
    }

    /// Appends the elements of `items` in their order.
    pub fn extend(&mut self, items: Vec<T>)
        requires
            old(self).wf(),
            old(self)@.len() + items@.len() <= u32::MAX,
        ensures
            final(self).wf(),
            final(self)@ == old(self)@ + items@,
    {
        let ghost all = items@;
        for item in it: items
            invariant
                self.wf(),
                it.seq() == all,
                old(self)@.len() + all.len() <= u32::MAX,
                self@ == old(self)@ + all.subrange(0, it.index() as int),
        {
            self.push(item);
        }
    }

    /// An array of the elements of `items` in their order.
    pub fn from_iter(items: Vec<T>) -> (vec: Self)
        requires
            items@.len() <= u32::MAX,
        ensures
            vec.wf(),
            vec@ == items@,
    {
        let mut vec = StorageVec::new();
        vec.extend(items);
        vec
    }
}

} // verus!
