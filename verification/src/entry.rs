//! What a stash keeps in its cells.

use vstd::prelude::*;

verus! {

/// What a stash knows of itself without looking at its slots.
#[derive(Debug, Copy, Clone, PartialEq, Eq)]
pub struct Header {
    /// The vacant slot that is filled next; where no slot is vacant, the
    /// number of slots.
    pub last_vacant: u32,
    /// The number of occupied slots.
    pub len: u32,
    /// The number of slots, occupied and vacant.
    pub len_entries: u32,
}

/// The links of a vacant slot to its neighbours in the ring of vacant slots.
#[derive(Debug, Copy, Clone, PartialEq, Eq)]
pub struct VacantEntry {
    /// The vacant slot after this one.
    pub next: u32,
    /// The vacant slot before this one.
    pub prev: u32,
}

/// A slot of a stash.
#[derive(Debug, PartialEq, Eq)]
pub enum Entry<T> {
    /// A slot without a value, linked into the ring of vacant slots.
    Vacant(VacantEntry),
    /// A slot with its value.
    Occupied(T),
}

impl<T> Entry<T> {
    /// Whether the slot holds a value.
    pub fn is_occupied(&self) -> (occupied: bool)
        ensures
            occupied == (*self is Occupied),
    {
        match self {
            Entry::Occupied(_) => true,
            Entry::Vacant(_) => false,
        }
    }

    /// Whether the slot holds no value.
    pub fn is_vacant(&self) -> (vacant: bool)
        ensures
            vacant == (*self is Vacant),
    {
        !self.is_occupied()
    }

    /// The links of a vacant slot; `None` for an occupied one.
    pub fn try_to_vacant(&self) -> (links: Option<VacantEntry>)
        ensures
            links == match *self {
                Entry::Vacant(vacant_entry) => Some(vacant_entry),
                Entry::Occupied(_) => None,
            },
    {
        match self {
            Entry::Occupied(_) => None,
            Entry::Vacant(vacant_entry) => Some(*vacant_entry),
        }
    }

    /// The links of a vacant slot, for changing them in place; `None` for an
    /// occupied one.
    pub fn try_to_vacant_mut(&mut self) -> (links: Option<&mut VacantEntry>)
        ensures
            links.is_some() == (*old(self) is Vacant),
            links.is_some() ==> *links.unwrap() == old(self)->Vacant_0,
            links.is_some() ==> *final(self) == Entry::<T>::Vacant(*final(links.unwrap())),
            links.is_none() ==> *final(self) == *old(self),
    {
        match self {
            Entry::Occupied(_) => None,
            Entry::Vacant(vacant_entry) => Some(vacant_entry),
        }
    }
}

} // verus!
