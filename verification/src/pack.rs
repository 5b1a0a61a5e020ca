//! Values that are stored together in a single cell.

use vstd::prelude::*;

verus! {

/// A value whose parts share one cell of the store, however many they are.
#[derive(Debug)]
pub struct Pack<T> {
    pub inner: T,
}

impl<T> View for Pack<T> {
    type V = T;

    open spec fn view(&self) -> T {
        self.inner
    }
}

impl<T> Pack<T> {
    /// Packs `value`.
    pub fn new(value: T) -> (pack: Pack<T>)
        ensures
            pack@ == value,
    {
        Pack { inner: value }
    }

    /// The packed value.
    pub fn as_inner(pack: &Pack<T>) -> (inner: &T)
        ensures
            *inner == pack@,
    {
        &pack.inner
    }

    /// The packed value, for changing it in place.
    pub fn as_inner_mut(pack: &mut Pack<T>) -> (inner: &mut T)
        ensures
            *inner == old(pack)@,
            final(pack)@ == *final(inner),
    {
        &mut pack.inner
    }

    /// Unpacks the value.
    pub fn into_inner(pack: Pack<T>) -> (inner: T)
        ensures
            inner == pack@,
    {
        pack.inner
    }

    /// The number of cells that a packed value takes, whatever it holds.
    pub fn footprint() -> (cells: u64)
        ensures
            cells == 1,
    {
        1
    }
}

} // verus!
