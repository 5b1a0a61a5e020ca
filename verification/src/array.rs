//! A fixed number of cells that are addressed by a base key and an index.

use vstd::prelude::*;
use crate::chunk::LazyChunk;
use crate::key::{offset_bytes, Key};

verus! {

/// `N` cells, numbered from 0, as they are held in memory. A cell holds a
/// value or is absent; it is absent until a value is put into it.
#[derive(Debug)]
pub struct LazyArray<T, const N: u32> {
    cells: LazyChunk<T>,
}

impl<T, const N: u32> View for LazyArray<T, N> {
    type V = Map<u32, T>;

    /// The cells that hold a value, by index.
    closed spec fn view(&self) -> Map<u32, T> {
        Map::new(|i: u32| i < N && self.cells@.contains_key(i), |i: u32| self.cells@[i])
    }
}

impl<T, const N: u32> LazyArray<T, N> {
    /// The key of cell 0, if the array has a place in the store.
    pub closed spec fn base_key(&self) -> Option<Key> {
        self.cells.base_key()
    }

    /// No cell has an index of `N` or more.
    pub proof fn theorem_cells_within_capacity(&self)
        ensures
            forall|i: u32| self@.contains_key(i) ==> i < N,
    {
    }

    /// An array without a place in the store, all of whose cells are absent.
    pub fn new() -> (array: Self)
        ensures
            array@ == Map::<u32, T>::empty(),
            array.base_key().is_none(),
    {
        let array = LazyArray { cells: LazyChunk::new() };
        array
    }

    /// An array whose cell 0 lies at `key`, all of whose cells are absent.
    pub fn lazy(key: Key) -> (array: Self)
        ensures
            array@ == Map::<u32, T>::empty(),
            array.base_key() == Some(key),
    {
        let array = LazyArray { cells: LazyChunk::lazy(key) };
        array
    }

    /// The number of cells that an array takes in the store: one for each
    /// index.
    pub fn footprint() -> (cells: u64)
        ensures
            cells == N,
    {
        N as u64
    }

    /// The number of cells.
    pub fn capacity() -> (capacity: u32)
        ensures
            capacity == N,
    {
        N
    }

    /// The key of cell 0, if the array has a place in the store.
    pub fn key(&self) -> (key: Option<&Key>)
        ensures
            key.is_some() == self.base_key().is_some(),
            key.is_some() ==> *key.unwrap() == self.base_key().unwrap(),
    {
        self.cells.key()
    }

    /// The key of cell `index`, if the array has a place in the store and
    /// `index` is below the capacity: the key that lies `index` cells after
    /// that of cell 0.
    pub fn key_at(&self, index: u32) -> (key: Option<Key>)
        ensures
            key.is_some() == (self.base_key().is_some() && index < N),
            key.is_some() ==> key.unwrap()@ == offset_bytes(
                self.base_key().unwrap()@,
                index as u64,
            ),
    {
        if index >= N {
            return None;
        }
        self.cells.key_at(index)
    }

    /// The value in cell `index`; `None` if the cell is absent or `index` is
    /// not below the capacity.
    pub fn get(&self, index: u32) -> (value: Option<&T>)
        ensures
            value.is_some() == self@.contains_key(index),
            value.is_some() ==> *value.unwrap() == self@[index],
    {
        if index >= N {
            return None;
        }
        self.cells.get(index)
    }

    /// The value in cell `index`, for changing it in place; `None` if the cell
    /// is absent or `index` is not below the capacity.
    pub fn get_mut(&mut self, index: u32) -> (value: Option<&mut T>)
        ensures
            value.is_some() == old(self)@.contains_key(index),
            value.is_some() ==> *value.unwrap() == old(self)@[index],
            value.is_some() ==> final(self)@ == old(self)@.insert(index, *final(value.unwrap())),
            value.is_none() ==> final(self)@ == old(self)@,
            final(self).base_key() == old(self).base_key(),
    {
        if index >= N {
            return None;
        }
        self.cells.get_mut(index)
    }

    /// Puts `new_value` into cell `index` and returns what the cell held.
    /// `None` makes the cell absent.
    pub fn put_get(&mut self, index: u32, new_value: Option<T>) -> (old_value: Option<T>)
        requires
            index < N,
        ensures
            old_value.is_some() == old(self)@.contains_key(index),
            old_value.is_some() ==> old_value.unwrap() == old(self)@[index],
            final(self)@ == match new_value {
                Some(v) => old(self)@.insert(index, v),
                None => old(self)@.remove(index),
            },
            final(self).base_key() == old(self).base_key(),
    {
        self.cells.put_get(index, new_value)
    }

    /// Puts `new_value` into cell `index`. `None` makes the cell absent.
    pub fn put(&mut self, index: u32, new_value: Option<T>)
        requires
            index < N,
        ensures
            final(self)@ == match new_value {
                Some(v) => old(self)@.insert(index, v),
                None => old(self)@.remove(index),
            },
            final(self).base_key() == old(self).base_key(),
    {
        let _ = self.put_get(index, new_value);
    }

    /// Takes the value out of cell `index`, which is absent afterwards.
    pub fn take(&mut self, index: u32) -> (value: Option<T>)
        requires
            index < N,
        ensures
            value.is_some() == old(self)@.contains_key(index),
            value.is_some() ==> value.unwrap() == old(self)@[index],
            final(self)@ == old(self)@.remove(index),
            final(self).base_key() == old(self).base_key(),
    {
        self.put_get(index, None)
    }

    /// Exchanges what cells `a` and `b` hold, values and absence alike.
    pub fn swap(&mut self, a: u32, b: u32)
        requires
            a < N,
            b < N,
        ensures
            final(self)@ == LazyChunk::<T>::swapped(old(self)@, a, b),
            final(self).base_key() == old(self).base_key(),
    {
        self.cells.swap(a, b);
    }
}

} // verus!
