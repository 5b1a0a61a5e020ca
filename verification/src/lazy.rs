//! A single cell that is read from the store when it is first needed.

use vstd::prelude::*;
use crate::key::Key;

verus! {

/// What is known in memory of the value of a cell.
#[derive(Debug)]
pub enum CacheEntry<T> {
    /// Nothing has been read from the store or written yet.
    Unsynced,
    /// The cell holds this value.
    Present(T),
    /// The cell has been emptied.
    Cleared,
}

/// One cell of the store and what is known of its value. Reading and changing
/// the value work on memory alone; `load` hands in what the store holds, and
/// `pending_write` tells what the store is to hold.
#[derive(Debug)]
pub struct Lazy<T> {
    key: Option<Key>,
    cache: CacheEntry<T>,
}

impl<T> View for Lazy<T> {
    type V = CacheEntry<T>;

    closed spec fn view(&self) -> CacheEntry<T> {
        self.cache
    }
}

impl<T> Lazy<T> {
    /// The key of the cell, if it has a place in the store.
    pub closed spec fn cell_key(&self) -> Option<Key> {
        self.key
    }

    /// The value of the cell, if one is known.
    pub open spec fn value(&self) -> Option<T> {
        match self@ {
            CacheEntry::Present(value) => Some(value),
            _ => None,
        }
    }

    /// A cell without a place in the store that holds `value`.
    pub fn new(value: T) -> (cell: Lazy<T>)
        ensures
            cell@ == CacheEntry::Present(value),
            cell.cell_key().is_none(),
    {
        Lazy { key: None, cache: CacheEntry::Present(value) }
    }

    /// The cell at `key`, of which nothing is known yet. The store is not read.
    pub fn lazy(key: Key) -> (cell: Lazy<T>)
        ensures
            cell@ == CacheEntry::<T>::Unsynced,
            cell.cell_key() == Some(key),
    {
        Lazy { key: Some(key), cache: CacheEntry::Unsynced }
    }

    /// The key of the cell, if it has a place in the store.
    pub fn key(&self) -> (key: Option<&Key>)
        ensures
            key.is_some() == self.cell_key().is_some(),
            key.is_some() ==> *key.unwrap() == self.cell_key().unwrap(),
    {
        self.key.as_ref()
    }

    /// Whether the store has to be read before the value is known.
    pub fn needs_load(&self) -> (needed: bool)
        ensures
            needed == (self@ is Unsynced),
    {
        match &self.cache {
            CacheEntry::Unsynced => true,
            _ => false,
        }
    }

    /// Takes note of what the store holds in the cell: `loaded`, or nothing.
    /// What is already known of the cell is newer and stays.
    pub fn load(&mut self, loaded: Option<T>)
        ensures
            final(self).cell_key() == old(self).cell_key(),
            final(self)@ == match old(self)@ {
                CacheEntry::Unsynced => match loaded {
                    Some(value) => CacheEntry::Present(value),
                    None => CacheEntry::Cleared,
                },
                known => known,
            },
    {
        if self.needs_load() {
            self.cache = match loaded {
                Some(value) => CacheEntry::Present(value),
                None => CacheEntry::Cleared,
            };
        }
    }

    /// The value, if one is known.
    pub fn get(&self) -> (value: Option<&T>)
        ensures
            value.is_some() == self.value().is_some(),
            value.is_some() ==> *value.unwrap() == self.value().unwrap(),
    {
        match &self.cache {
            CacheEntry::Present(value) => Some(value),
            _ => None,
        }
    }

    /// The value, if one is known, for changing it in place.
    pub fn get_mut(&mut self) -> (value: Option<&mut T>)
        ensures
            final(self).cell_key() == old(self).cell_key(),
            value.is_some() == old(self).value().is_some(),
            value.is_some() ==> *value.unwrap() == old(self).value().unwrap(),
            value.is_some() ==> final(self)@ == CacheEntry::Present(*final(value.unwrap())),
            value.is_none() ==> final(self)@ == old(self)@,
    {
        match &mut self.cache {
            CacheEntry::Present(value) => Some(value),
            _ => None,
        }
    }

    /// Gives the cell the value `value`.
    pub fn set(&mut self, value: T)
        ensures
            final(self).cell_key() == old(self).cell_key(),
            final(self)@ == CacheEntry::Present(value),
    {
        self.cache = CacheEntry::Present(value);
    }

    /// Empties the cell and returns the value that was known, if any.
    pub fn clear(&mut self) -> (value: Option<T>)
        ensures
            final(self).cell_key() == old(self).cell_key(),
            final(self)@ == CacheEntry::<T>::Cleared,
            value == old(self).value(),
    {
        let mut cache = CacheEntry::Cleared;
        core::mem::swap(&mut self.cache, &mut cache);
        match cache {
            CacheEntry::Present(value) => Some(value),
            _ => None,
        }
    }

    /// What the store is to hold in the cell when the cell is persisted: the
    /// value, or `None` inside `Some` for an emptied cell. `None` if nothing is
    /// known of the cell, in which case the store is left as it is.
    pub fn pending_write(&self) -> (write: Option<Option<&T>>)
        ensures
            write.is_none() == (self@ is Unsynced),
            write.is_some() ==> write.unwrap().is_some() == self.value().is_some(),
            write.is_some() && write.unwrap().is_some() ==> *write.unwrap().unwrap()
                == self.value().unwrap(),
    {
        match &self.cache {
            CacheEntry::Unsynced => None,
            CacheEntry::Present(value) => Some(Some(value)),
            CacheEntry::Cleared => Some(None),
        }
    }

    /// The number of cells that the cell takes, whatever it holds.
    pub fn footprint() -> (cells: u64)
        ensures
            cells == 1,
    {
        1
    }
}

} // verus!
