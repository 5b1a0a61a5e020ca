//! Comparing growable arrays.

use vstd::prelude::*;
use vstd::std_specs::cmp::PartialEqSpec;
use crate::vec::StorageVec;

verus! {

impl<T: PartialEq> StorageVec<T> {
    /// Whether the two arrays have the same length and, index by index, equal
    /// elements.
    pub fn eq(&self, other: &Self) -> (equal: bool)
        requires
            self.wf(),
            other.wf(),
        ensures
            T::obeys_eq_spec() ==> equal == (self@.len() == other@.len() && forall|i: int|
                0 <= i < self@.len() ==> (#[trigger] self@[i]).eq_spec(&other@[i])),
    {
        if self.len() != other.len() {
            return false;
        }
        let len = self.len();
        let mut index: u32 = 0;
        while index < len
            invariant
                self.wf(),
                other.wf(),
                len == self@.len(),
                len == other@.len(),
                index <= len,
                T::obeys_eq_spec() ==> forall|i: int|
                    0 <= i < index ==> (#[trigger] self@[i]).eq_spec(&other@[i]),
            decreases len - index,
        {
            if self[index] != other[index] {
                return false;
            }
            index += 1;
        }
        true
    }
}

} // verus!
