//! Indexing growable arrays.

use vstd::prelude::*;
use crate::vec::StorageVec;

verus! {

impl<T> vstd::std_specs::core::IndexSpecImpl<u32> for StorageVec<T> {
    /// An array is indexed with the index of one of its elements.
    open spec fn index_req(&self, index: &u32) -> bool {
        self.wf() && *index < self@.len()
    }
}

impl<T> core::ops::Index<u32> for StorageVec<T> {
    type Output = T;

    /// The element at `index`.
    fn index(&self, index: u32) -> (element: &T)
        ensures
            *element == self@[index as int],
    {
        match self.get(index) {
            Some(element) => element,
            None => vstd::pervasive::unreached(),
        }
    }
}

} // verus!
