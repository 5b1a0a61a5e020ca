//! Cells that are addressed by a base key and an index.

use vstd::prelude::*;
use crate::key::{offset_bytes, Key};

verus! {

/// An unbounded family of cells, numbered by `u32`, as it is held in
/// memory. A cell holds a value or is absent. Nothing here reads the store:
/// a cell is absent until a value is put into it, and who brings a chunk in
/// from the store puts what the store holds.
#[derive(Debug)]
pub struct LazyChunk<T> {
    key: Option<Key>,
    cells: Vec<Option<T>>,
}

impl<T> View for LazyChunk<T> {
    type V = Map<u32, T>;

    /// The cells that hold a value, by index.
    closed spec fn view(&self) -> Map<u32, T> {
        Map::new(
            |i: u32| (i as int) < self.cells@.len() && self.cells@[i as int].is_some(),
            |i: u32| self.cells@[i as int].unwrap(),
        )
    }
}

impl<T> LazyChunk<T> {
    /// The key of cell 0, if the chunk has a place in the store.
    pub closed spec fn base_key(&self) -> Option<Key> {
        self.key
    }

    /// A chunk without a place in the store, all of whose cells are absent.
    pub fn new() -> (chunk: LazyChunk<T>)
        ensures
            chunk@ == Map::<u32, T>::empty(),
            chunk.base_key().is_none(),
    {
        let chunk = LazyChunk { key: None, cells: Vec::new() };
        chunk
    }

    /// A chunk whose cell 0 lies at `key`, all of whose cells are absent.
    pub fn lazy(key: Key) -> (chunk: LazyChunk<T>)
        ensures
            chunk@ == Map::<u32, T>::empty(),
            chunk.base_key() == Some(key),
    {
        let chunk = LazyChunk { key: Some(key), cells: Vec::new() };
        chunk
    }

    /// The number of cells that a chunk takes in the store: one for each
    /// index.
    pub fn footprint() -> (cells: u64)
        ensures
            cells == u32::MAX + 1,
    {
        0x1_0000_0000
    }

    /// The key of cell 0, if the chunk has a place in the store.
    pub fn key(&self) -> (key: Option<&Key>)
        ensures
            key.is_some() == self.base_key().is_some(),
            key.is_some() ==> *key.unwrap() == self.base_key().unwrap(),
    {
        self.key.as_ref()
    }

    /// The key of cell `index`, if the chunk has a place in the store: the
    /// key that lies `index` cells after that of cell 0.
    pub fn key_at(&self, index: u32) -> (key: Option<Key>)
        ensures
            key.is_some() == self.base_key().is_some(),
            key.is_some() ==> key.unwrap()@ == offset_bytes(
                self.base_key().unwrap()@,
                index as u64,
            ),
    {
        match &self.key {
            Some(base) => Some(base.offset(index as u64)),
            None => None,
        }
    }

    /// The value in cell `index`, if the cell holds one.
    pub fn get(&self, index: u32) -> (value: Option<&T>)
        ensures
            value.is_some() == self@.contains_key(index),
            value.is_some() ==> *value.unwrap() == self@[index],
    {
        let i: usize = index as usize;
        if i < self.cells.len() {
            self.cells[i].as_ref()
        } else {
            None
        }
    }

    /// The value in cell `index`, for changing it in place.
    pub fn get_mut(&mut self, index: u32) -> (value: Option<&mut T>)
        ensures
            value.is_some() == old(self)@.contains_key(index),
            value.is_some() ==> *value.unwrap() == old(self)@[index],
            value.is_some() ==> final(self)@ == old(self)@.insert(index, *final(value.unwrap())),
            value.is_none() ==> final(self)@ == old(self)@,
            final(self).base_key() == old(self).base_key(),
    {
        let i: usize = index as usize;
        if i >= self.cells.len() {
            return None;
        }
        let cell = &mut self.cells[i];
        cell.as_mut()
    }

    /// Puts `new_value` into cell `index` and returns what the cell held.
    /// `None` makes the cell absent.
    pub fn put_get(&mut self, index: u32, new_value: Option<T>) -> (old_value: Option<T>)
        ensures
            old_value.is_some() == old(self)@.contains_key(index),
            old_value.is_some() ==> old_value.unwrap() == old(self)@[index],
            final(self)@ == match new_value {
                Some(v) => old(self)@.insert(index, v),
                None => old(self)@.remove(index),
            },
            final(self).base_key() == old(self).base_key(),
    {
        let i: usize = index as usize;
        if new_value.is_none() && i >= self.cells.len() {
            return None;
        }
        while self.cells.len() <= i
            invariant
                self@ == old(self)@,
                self.key == old(self).key,
                i == index,
            decreases i + 1 - self.cells@.len(),
        {
            self.cells.push(None);
        }
        let mut slot = new_value;
        core::mem::swap(&mut self.cells[i], &mut slot);
        slot
    }

    /// Puts `new_value` into cell `index`. `None` makes the cell absent.
    pub fn put(&mut self, index: u32, new_value: Option<T>)
        ensures
            final(self)@ == match new_value {
                Some(v) => old(self)@.insert(index, v),
                None => old(self)@.remove(index),
            },
            final(self).base_key() == old(self).base_key(),
    {
        let _ = self.put_get(index, new_value);
    }

    /// Takes the value out of cell `index`, which is absent afterwards.
    pub fn take(&mut self, index: u32) -> (value: Option<T>)
        ensures
            value.is_some() == old(self)@.contains_key(index),
            value.is_some() ==> value.unwrap() == old(self)@[index],
            final(self)@ == old(self)@.remove(index),
            final(self).base_key() == old(self).base_key(),
    {
        self.put_get(index, None)
    }

    /// Exchanges what cells `a` and `b` hold, values and absence alike.
    pub fn swap(&mut self, a: u32, b: u32)
        ensures
            final(self)@ == Self::swapped(old(self)@, a, b),
            final(self).base_key() == old(self).base_key(),
    {
        if a != b {
            let at_a = self.put_get(a, None);
            let at_b = self.put_get(b, at_a);
            self.put(a, at_b);
        }
    }

    /// `cells` with the contents of cells `a` and `b` exchanged.
    pub open spec fn swapped(cells: Map<u32, T>, a: u32, b: u32) -> Map<u32, T> {
        Map::new(
            |i: u32| if i == a { cells.contains_key(b) } else if i == b { cells.contains_key(a) } else { cells.contains_key(i) },
            |i: u32| if i == a { cells[b] } else if i == b { cells[a] } else { cells[i] },
        )
    }
}

} // verus!
