//! Going through the values of a stash.

use vstd::prelude::*;
use crate::entry::Entry;
use crate::stash::Stash;

verus! {

/// The values in the occupied slots among the slots `from` up to, but not
/// including, `to` of `entries`, in the order of the slots.
pub open spec fn values_between<T>(entries: Seq<Entry<T>>, from: int, to: int) -> Seq<T>
    decreases to - from,
{
    if from >= to {
        Seq::empty()
    } else {
        match entries[from] {
            Entry::Occupied(value) => seq![value] + values_between(entries, from + 1, to),
            Entry::Vacant(_) => values_between(entries, from + 1, to),
        }
    }
}

/// The values between two slots, read from the back: those before the last
/// slot, and then the value of the last slot if it holds one.
pub proof fn lemma_values_between_back<T>(entries: Seq<Entry<T>>, from: int, to: int)
    requires
        from < to,
    ensures
        values_between(entries, from, to) == match entries[to - 1] {
            Entry::Occupied(value) => values_between(entries, from, to - 1).push(value),
            Entry::Vacant(_) => values_between(entries, from, to - 1),
        },
    decreases to - from,
{
    if from + 1 < to {
        lemma_values_between_back(entries, from + 1, to);
        match entries[to - 1] {
            Entry::Occupied(value) => {
                let inner = values_between(entries, from + 1, to - 1);
                match entries[from] {
                    Entry::Occupied(first) => {
                        assert(seq![first] + inner.push(value) =~= (seq![first] + inner).push(
                            value,
                        ));
                    },
                    Entry::Vacant(_) => {},
                }
            },
            Entry::Vacant(_) => {},
        }
    } else {
        assert(values_between(entries, from + 1, to) =~= Seq::<T>::empty());
    }
}

/// The values of a stash that are still to come, from both ends, in the
/// order of their slots.
#[derive(Debug)]
pub struct Iter<'a, T> {
    /// The stash.
    stash: &'a Stash<T>,
    /// The first slot that has not been looked at from the front.
    begin: u32,
    /// The slot after the last that has not been looked at from the back.
    end: u32,
}

impl<'a, T> View for Iter<'a, T> {
    type V = Seq<T>;

    /// The values that are still to come, in the order of their slots.
    closed spec fn view(&self) -> Seq<T> {
        values_between(self.stash@, self.begin as int, self.end as int)
    }
}

impl<'a, T> Iter<'a, T> {
    /// The bounds lie within the stash, which is well formed.
    pub closed spec fn wf(&self) -> bool {
        &&& self.stash.wf()
        &&& self.begin <= self.end <= self.stash@.len()
    }

    /// All values of `stash`.
    pub fn new(stash: &'a Stash<T>) -> (iter: Self)
        requires
            stash.wf(),
        ensures
            iter.wf(),
            iter@ == values_between(stash@, 0, stash@.len() as int),
    {
        Self { stash, begin: 0, end: stash.len_entries() }
    }

    /// The next value from the front, which is then no longer to come. `None`
    /// once none is left.
    pub fn next(&mut self) -> (value: Option<&'a T>)
        requires
            old(self).wf(),
        ensures
            final(self).wf(),
            old(self)@.len() == 0 ==> value.is_none() && final(self)@ == old(self)@,
            old(self)@.len() > 0 ==> value.is_some() && *value.unwrap() == old(self)@.first()
                && final(self)@ == old(self)@.drop_first(),
    {
        while self.begin < self.end
            invariant
                self.wf(),
                self.stash == old(self).stash,
                self@ == old(self)@,
            decreases self.end - self.begin,
        {
            let cur = self.begin;
            self.begin += 1;
            match self.stash.get(cur) {
                Some(value) => {
                    return Some(value);
                },
                None => {},
            }
        }
        None
    }

    /// The next value from the back, which is then no longer to come. `None`
    /// once none is left.
    pub fn next_back(&mut self) -> (value: Option<&'a T>)
        requires
            old(self).wf(),
        ensures
            final(self).wf(),
            old(self)@.len() == 0 ==> value.is_none() && final(self)@ == old(self)@,
            old(self)@.len() > 0 ==> value.is_some() && *value.unwrap() == old(self)@.last()
                && final(self)@ == old(self)@.drop_last(),
    {
        while self.begin < self.end
            invariant
                self.wf(),
                self.stash == old(self).stash,
                self@ == old(self)@,
            decreases self.end - self.begin,
        {
            proof {
                lemma_values_between_back(self.stash@, self.begin as int, self.end as int);
            }
            self.end -= 1;
            match self.stash.get(self.end) {
                Some(value) => {
                    return Some(value);
                },
                None => {},
            }
        }
        None
    }
}

/// The first occupied slot among the slots `from` up to, but not including,
/// `to` of `entries`; `to` if none of them is occupied.
pub open spec fn first_occupied<T>(entries: Seq<Entry<T>>, from: int, to: int) -> int
    decreases to - from,
{
    if from >= to {
        to
    } else if entries[from] is Occupied {
        from
    } else {
        first_occupied(entries, from + 1, to)
    }
}

/// The values of a stash that are still to come, each for changing it in
/// place.
pub struct IterMut<'a, T> {
    /// The stash.
    pub stash: &'a mut Stash<T>,
    /// The first slot that has not been looked at.
    pub begin: u32,
    /// The slot after the last that is to be looked at.
    pub end: u32,
}

impl<'a, T> IterMut<'a, T> {
    /// The bounds lie within the stash, which is well formed.
    pub open spec fn wf(&self) -> bool {
        &&& self.stash.wf()
        &&& self.begin <= self.end <= self.stash@.len()
    }

    /// All values of `stash`.
    pub fn new(stash: &'a mut Stash<T>) -> (iter: Self)
        requires
            old(stash).wf(),
        ensures
            iter.wf(),
            *iter.stash == *old(stash),
            *final(iter.stash) == *final(stash),
            iter.begin == 0,
            iter.end == old(stash)@.len(),
    {
        let end = stash.len_entries();
        Self { stash, begin: 0, end }
    }

    /// The next value, for changing it in place; it is then no longer to
    /// come. `None` once none is left.
    pub fn next(&mut self) -> (value: Option<&mut T>)
        requires
            old(self).wf(),
        ensures
            *final(final(self).stash) == *final(old(self).stash),
            final(self).end == old(self).end,
            final(self).stash.header() == old(self).stash.header(),
            final(self).stash.base_key() == old(self).stash.base_key(),
            ({
                let entries = old(self).stash@;
                let at = first_occupied(entries, old(self).begin as int, old(self).end as int);
                &&& value.is_some() == (at < old(self).end)
                &&& value.is_none() ==> final(self).begin == old(self).end && final(self).stash@
                    == entries
                &&& value.is_some() ==> final(self).begin == at + 1 && *value.unwrap()
                    == entries[at]->Occupied_0 && final(self).stash@ == entries.update(
                    at,
                    Entry::Occupied(*final(value.unwrap())),
                )
            }),
            final(self).wf(),
    {
        while self.begin < self.end
            invariant
                self.wf(),
                *final(self.stash) == *final(old(self).stash),
                self.end == old(self).end,
                *self.stash == *old(self).stash,
                old(self).begin <= self.begin,
                first_occupied(self.stash@, self.begin as int, self.end as int) == first_occupied(
                    old(self).stash@,
                    old(self).begin as int,
                    old(self).end as int,
                ),
            decreases self.end - self.begin,
        {
            let cur = self.begin;
            self.begin += 1;
            let occupied = match self.stash.get(cur) {
                Some(_) => true,
                None => false,
            };
            if occupied {
                return self.stash.get_mut(cur);
            }
        }
        None
    }
}

} // verus!
