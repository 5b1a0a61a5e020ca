//! A growable array with a fixed capacity.

use vstd::prelude::*;
use crate::array::LazyArray;
use crate::smallvec_iter::Iter;
use crate::lazy::{CacheEntry, Lazy};

verus! {

/// A sequence of at most `N` elements that grows and shrinks at its end. The
/// elements lie in the first cells of an array of `N` cells, and the length in
/// a cell of its own.
#[derive(Debug)]
pub struct SmallVec<T, const N: u32> {
    /// The number of elements.
    len: Lazy<u32>,
    /// The cells of the elements.
    elems: LazyArray<T, N>,
}

impl<T, const N: u32> View for SmallVec<T, N> {
    type V = Seq<T>;

    /// The elements in their order.
    closed spec fn view(&self) -> Seq<T> {
        Seq::new(self.stored_len() as nat, |i: int| self.elems@[i as u32])
    }
}

impl<T, const N: u32> Default for SmallVec<T, N> {
    /// An array without elements.
    fn default() -> (vec: Self)
        ensures
            vec.wf(),
            vec@ == Seq::<T>::empty(),
    {
        Self::new()
    }
}

impl<T, const N: u32> SmallVec<T, N> {
    /// The length that the cell of the length holds.
    pub closed spec fn stored_len(&self) -> u32 {
        match self.len@ {
            CacheEntry::Present(len) => len,
            _ => 0,
        }
    }

    /// The array is well formed: its length is known and at most `N`, and
    /// the cells below the length hold a value each.
    pub closed spec fn wf(&self) -> bool {
        &&& self.len@ is Present
        &&& self.stored_len() <= N
        &&& forall|i: u32| i < self.stored_len() ==> self.elems@.contains_key(i)
    }

    /// A well-formed array never has more elements than it can hold.
    pub proof fn theorem_len_within_capacity(&self)
        requires
            self.wf(),
        ensures
            self@.len() <= N,
            self@.len() == self.stored_len(),
    {
    }

    /// An array without elements.
    pub fn new() -> (vec: Self)
        ensures
            vec.wf(),
            vec@ == Seq::<T>::empty(),
    {
        let vec = Self { len: Lazy::new(0), elems: LazyArray::new() };
        vec
    }

    /// An array of the elements of `elements` in their order. `None` if they
    /// are more than `N`.
    pub fn from_elements(elements: Vec<T>) -> (vec: Option<Self>)
        ensures
            vec.is_some() == (elements@.len() <= N),
            vec.is_some() ==> vec.unwrap().wf() && vec.unwrap()@ == elements@,
    {
        if elements.len() > N as usize {
            return None;
        }
        let mut vec = Self::new();
        let ghost all = elements@;
        for element in it: elements
            invariant
                vec.wf(),
                it.seq() == all,
                all.len() <= N,
                vec@ == all.subrange(0, it.index() as int),
        {
            vec.push(element);
        }
        Some(vec)
    }

    /// The number of cells that an array takes in the store: one for the
    /// length and one for each element that it can hold.
    pub fn footprint() -> (cells: u64)
        ensures
            cells == 1 + N,
    {
        Lazy::<u32>::footprint() + LazyArray::<T, N>::footprint()
    }

    /// The number of elements that the array can hold.
    pub fn capacity() -> (capacity: u32)
        ensures
            capacity == N,
    {
        LazyArray::<T, N>::capacity()
    }

    /// The number of elements.
    pub fn len(&self) -> (len: u32)
        requires
            self.wf(),
        ensures
            len == self@.len(),
            len <= N,
    {
        match self.len.get() {
            Some(len) => *len,
            None => 0,
        }
    }

    /// Whether the array has no element.
    pub fn is_empty(&self) -> (empty: bool)
        requires
            self.wf(),
        ensures
            empty == (self@.len() == 0),
    {
        self.len() == 0
    }

    /// The elements from the first to the last, one at a time.
    pub fn iter(&self) -> (iter: Iter<'_, T, N>)
        requires
            self.wf(),
        ensures
            iter.wf(),
            iter@ == self@,
    {
        Iter::new(self)
    }

    /// `index`, if an element has that index.
    pub fn within_bounds(&self, index: u32) -> (bounded: Option<u32>)
        requires
            self.wf(),
        ensures
            bounded == if index < self@.len() {
                Some(index)
            } else {
                None
            },
    {
        if index < self.len() {
            return Some(index);
        }
        None
    }

    /// The first element, if there is one.
    pub fn first(&self) -> (element: Option<&T>)
        requires
            self.wf(),
        ensures
            element.is_some() == (self@.len() > 0),
            element.is_some() ==> *element.unwrap() == self@.first(),
    {
        self.get(0)
    }

    /// The last element, if there is one.
    pub fn last(&self) -> (element: Option<&T>)
        requires
            self.wf(),
        ensures
            element.is_some() == (self@.len() > 0),
            element.is_some() ==> *element.unwrap() == self@.last(),
    {
        if self.is_empty() {
            return None;
        }
        let last_index = self.len() - 1;
        self.get(last_index)
    }

    /// The element at `index`, if there is one.
    pub fn get(&self, index: u32) -> (element: Option<&T>)
        requires
            self.wf(),
        ensures
            element.is_some() == (index < self@.len()),
            element.is_some() ==> *element.unwrap() == self@[index as int],
    {
        match self.within_bounds(index) {
            Some(index) => self.elems.get(index),
            None => None,
        }
    }

    /// Appends `value`.
    pub fn push(&mut self, value: T)
        requires
            old(self).wf(),
            old(self)@.len() < N,
        ensures
            final(self).wf(),
            final(self)@ == old(self)@.push(value),
    {
        let last_index = self.len();
        self.len.set(last_index + 1);
        self.elems.put(last_index, Some(value));
    }

    /// Appends `value` if the array is not full. Hands `value` back, and
    /// nothing changes, if it is.
    pub fn try_push(&mut self, value: T) -> (refused: Result<(), T>)
        requires
            old(self).wf(),
        ensures
            final(self).wf(),
            old(self)@.len() < N ==> refused.is_ok() && final(self)@ == old(self)@.push(value),
            old(self)@.len() >= N ==> refused == Err::<(), T>(value) && final(self)@ == old(self)@,
    {
        if self.len() < Self::capacity() {
            self.push(value);
            Ok(())
        } else {
            Err(value)
        }
    }

    /// Removes the last element and returns it. `None`, and nothing changes,
    /// if the array is empty.
    pub fn pop(&mut self) -> (element: Option<T>)
        requires
            old(self).wf(),
        ensures
            final(self).wf(),
            old(self)@.len() == 0 ==> element.is_none() && final(self)@ == old(self)@,
            old(self)@.len() > 0 ==> element == Some(old(self)@.last()) && final(self)@ == old(self)@.drop_last(),
    {
        if self.is_empty() {
            return None;
        }
        let last_index = self.len() - 1;
        self.len.set(last_index);
        let element = self.elems.take(last_index);
        element
    }

    /// Removes the last element, if there is one.
    pub fn pop_drop(&mut self)
        requires
            old(self).wf(),
        ensures
            final(self).wf(),
            old(self)@.len() == 0 ==> final(self)@ == old(self)@,
            old(self)@.len() > 0 ==> final(self)@ == old(self)@.drop_last(),
    {
        if self.is_empty() {
            return ;
        }
        let last_index = self.len() - 1;
        self.len.set(last_index);
        self.elems.put(last_index, None);
    }

    /// The first element, if there is one, for changing it in place.
    pub fn first_mut(&mut self) -> (element: Option<&mut T>)
        requires
            old(self).wf(),
        ensures
            element.is_some() == (old(self)@.len() > 0),
            element.is_some() ==> *element.unwrap() == old(self)@.first(),
            element.is_some() ==> final(self)@ == old(self)@.update(0, *final(element.unwrap())),
            element.is_none() ==> final(self)@ == old(self)@,
            final(self).wf(),
    {
        self.get_mut(0)
    }

    /// The last element, if there is one, for changing it in place.
    pub fn last_mut(&mut self) -> (element: Option<&mut T>)
        requires
            old(self).wf(),
        ensures
            element.is_some() == (old(self)@.len() > 0),
            element.is_some() ==> *element.unwrap() == old(self)@.last(),
            element.is_some() ==> final(self)@ == old(self)@.update(
                old(self)@.len() - 1,
                *final(element.unwrap()),
            ),
            element.is_none() ==> final(self)@ == old(self)@,
            final(self).wf(),
    {
        if self.is_empty() {
            return None;
        }
        let last_index = self.len() - 1;
        self.get_mut(last_index)
    }

    /// The element at `index`, if there is one, for changing it in place.
    pub fn get_mut(&mut self, index: u32) -> (element: Option<&mut T>)
        requires
            old(self).wf(),
        ensures
            element.is_some() == (index < old(self)@.len()),
            element.is_some() ==> *element.unwrap() == old(self)@[index as int],
            element.is_some() ==> final(self)@ == old(self)@.update(
                index as int,
                *final(element.unwrap()),
            ),
            element.is_none() ==> final(self)@ == old(self)@,
            final(self).wf(),
    {
        match self.within_bounds(index) {
            Some(index) => self.elems.get_mut(index),
            None => None,
        }
    }

    /// Exchanges the elements at `a` and `b`.
    pub fn swap(&mut self, a: u32, b: u32)
        requires
            old(self).wf(),
            a < old(self)@.len(),
            b < old(self)@.len(),
        ensures
            final(self).wf(),
            final(self)@ == old(self)@.update(a as int, old(self)@[b as int]).update(
                b as int,
                old(self)@[a as int],
            ),
    {
        self.elems.swap(a, b);
        assert(self@ =~= old(self)@.update(a as int, old(self)@[b as int]).update(
            b as int,
            old(self)@[a as int],
        ));
    }

    /// Removes the element at `n` and returns it; the last element takes its
    /// place. `None`, and nothing changes, if no element has the index `n`.
    pub fn swap_remove(&mut self, n: u32) -> (element: Option<T>)
        requires
            old(self).wf(),
        ensures
            final(self).wf(),
            n >= old(self)@.len() ==> element.is_none() && final(self)@ == old(self)@,
            n < old(self)@.len() ==> element == Some(old(self)@[n as int]) && final(self)@
                == old(self)@.update(n as int, old(self)@.last()).drop_last(),
    {
        if self.is_empty() || n >= self.len() {
            return None;
        }
        let last_index = self.len() - 1;
        self.elems.swap(n, last_index);
        let ghost swapped = self@;
        assert(swapped =~= old(self)@.update(n as int, old(self)@.last()).update(
            last_index as int,
            old(self)@[n as int],
        ));
        let element = self.pop();
        element
    }

    /// Removes the element at `n`; the last element takes its place. `None`,
    /// and nothing changes, if no element has the index `n`.
    pub fn swap_remove_drop(&mut self, n: u32) -> (removed: Option<()>)
        requires
            old(self).wf(),
        ensures
            final(self).wf(),
            removed.is_some() == (n < old(self)@.len()),
            n >= old(self)@.len() ==> final(self)@ == old(self)@,
            n < old(self)@.len() ==> final(self)@ == old(self)@.update(
                n as int,
                old(self)@.last(),
            ).drop_last(),
    {
        if self.is_empty() || n >= self.len() {
            return None;
        }
        let last_index = self.len() - 1;
        self.elems.put(n, None);
        let last = self.elems.take(last_index);
        self.elems.put(n, last);
        self.len.set(last_index);
        Some(())
    }
}

} // verus!
