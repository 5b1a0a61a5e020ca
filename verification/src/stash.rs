//! The stash: numbered slots that are reused once they are freed.

use vstd::prelude::*;
use vstd::pervasive::unreached;
use crate::chunk::LazyChunk;
use crate::entry::{Entry, Header, VacantEntry};
use crate::counts::values;
use crate::model::{
    compacted, compacted_once, header_after_put, header_after_take, header_compacted_once,
    lemma_compact_once, lemma_empty_well_formed, lemma_head_links, lemma_put_well_formed,
    lemma_revalue, lemma_take_well_formed, refilled, relocations, vacated, value_at, well_formed,
};
use crate::ring::{head_after_unlink, is_alone, unlinked, with_next, with_prev};
use crate::key::Key;
use crate::pack::Pack;
use crate::ring_check::is_well_formed;
use crate::stash_iter::{values_between, Iter, IterMut};
use crate::theorems::theorem_compaction;

verus! {

/// A collection that gives each value it is handed a slot, whose index stays
/// the same until the value is taken out again. The slots of values that were
/// taken out are vacant and are filled again before new slots are made. The
/// vacant slots are linked into a ring through the slots themselves.
#[derive(Debug)]
pub struct Stash<T> {
    /// The counts and the start of the ring.
    header: Pack<Header>,
    /// The slots, one cell each.
    entries: LazyChunk<Pack<Entry<T>>>,
}

impl<T> View for Stash<T> {
    type V = Seq<Entry<T>>;

    /// The slots in the order of their indices.
    closed spec fn view(&self) -> Seq<Entry<T>> {
        Seq::new(self.header@.len_entries as nat, |i: int| self.entries@[i as u32]@)
    }
}

/// `callback` has been called for each of the values `moved`, with the slot
/// that the value left, the slot that it went to and the value: what
/// `callback` ensures of such a call holds.
pub open spec fn was_told<T, C: FnMut(u32, u32, &T)>(callback: C, moved: Seq<(u32, u32, T)>) -> bool {
    forall|i: int|
        0 <= i < moved.len() ==> callback.ensures(
            ((#[trigger] moved[i]).0, moved[i].1, &moved[i].2),
            (),
        )
}

impl<T> Stash<T> {
    /// The header.
    pub closed spec fn header(&self) -> Header {
        self.header@
    }

    /// The key of the cell of slot 0, if the stash has a place in the store.
    pub closed spec fn base_key(&self) -> Option<Key> {
        self.entries.base_key()
    }

    /// The cells that hold a slot are those below `header().len_entries`.
    pub closed spec fn has_all_cells(&self) -> bool {
        forall|i: u32| self.entries@.contains_key(i) <==> i < self.header@.len_entries
    }

    /// The stash is well formed: it has a cell for each of its slots and no
    /// other, its vacant slots form one ring, and its header counts right.
    pub open spec fn wf(&self) -> bool {
        &&& self.has_all_cells()
        &&& self@.len() == self.header().len_entries
        &&& well_formed(self@, self.header())
    }

    /// A stash without slots and without a place in the store.
    pub fn new() -> (stash: Self)
        ensures
            stash.wf(),
            stash@ == Seq::<Entry<T>>::empty(),
            stash.header() == (Header { last_vacant: 0, len: 0, len_entries: 0 }),
            stash.base_key().is_none(),
    {
        let stash = Self {
            header: Pack::new(Header { last_vacant: 0, len: 0, len_entries: 0 }),
            entries: LazyChunk::new(),
        };
        proof {
            assert(stash@ =~= Seq::<Entry<T>>::empty());
            lemma_empty_well_formed::<T>();
        }
        stash
    }

    /// A stash of the slots `entries` and the header `header`, with the cell
    /// of slot 0 at `key` if that is given. `None` if the slots and the header
    /// are not those of a well-formed stash.
    pub fn from_parts(key: Option<Key>, header: Header, entries: Vec<Entry<T>>) -> (stash: Option<
        Self,
    >)
        ensures
            stash.is_some() == well_formed(entries@, header),
            stash.is_some() ==> {
                &&& stash.unwrap().wf()
                &&& stash.unwrap()@ == entries@
                &&& stash.unwrap().header() == header
                &&& stash.unwrap().base_key() == key
            },
    {
        if !is_well_formed(&header, &entries) {
            return None;
        }
        let mut cells: LazyChunk<Pack<Entry<T>>> = match key {
            Some(key) => LazyChunk::lazy(key),
            None => LazyChunk::new(),
        };
        let ghost all = entries@;
        let mut index: u32 = 0;
        for entry in it: entries
            invariant
                it.seq() == all,
                all.len() == header.len_entries,
                index == it.index(),
                cells.base_key() == key,
                forall|i: u32| cells@.contains_key(i) <==> i < index,
                forall|i: u32| i < index ==> (#[trigger] cells@[i])@ == all[i as int],
        {
            cells.put(index, Some(Pack::new(entry)));
            index += 1;
        }
        let stash = Self { header: Pack::new(header), entries: cells };
        assert(stash@ =~= all);
        Some(stash)
    }

    /// The header.
    pub fn raw_header(&self) -> (header: &Header)
        ensures
            *header == self.header(),
    {
        Pack::as_inner(&self.header)
    }

    /// The slot `at`, occupied or vacant; `None` if there is no such slot.
    pub fn raw_entry(&self, at: u32) -> (entry: Option<&Entry<T>>)
        requires
            self.wf(),
        ensures
            entry.is_some() == (at < self@.len()),
            entry.is_some() ==> *entry.unwrap() == self@[at as int],
    {
        if at >= self.len_entries() {
            return None;
        }
        match self.entries.get(at) {
            Some(pack) => Some(Pack::as_inner(pack)),
            None => None,
        }
    }

    /// The number of cells that a stash takes in the store: one for the
    /// header and one for each index.
    pub fn footprint() -> (cells: u64)
        ensures
            cells == 1 + (u32::MAX + 1),
    {
        Pack::<Header>::footprint() + LazyChunk::<Pack<Entry<T>>>::footprint()
    }

    /// The number of values in the stash.
    pub fn len(&self) -> (len: u32)
        ensures
            len == self.header().len,
    {
        self.header.inner.len
    }

    /// Whether the stash holds no value.
    pub fn is_empty(&self) -> (empty: bool)
        ensures
            empty == (self.header().len == 0),
    {
        self.len() == 0
    }

    /// The number of slots, occupied and vacant.
    pub fn len_entries(&self) -> (len_entries: u32)
        ensures
            len_entries == self.header().len_entries,
    {
        self.header.inner.len_entries
    }

    /// The key of the cell of slot 0, if the stash has a place in the store.
    pub fn entries_key(&self) -> (key: Option<&Key>)
        ensures
            key.is_some() == self.base_key().is_some(),
            key.is_some() ==> *key.unwrap() == self.base_key().unwrap(),
    {
        self.entries.key()
    }

    /// The values from the first slot to the last, one at a time.
    pub fn iter(&self) -> (iter: Iter<'_, T>)
        requires
            self.wf(),
        ensures
            iter.wf(),
            iter@ == values_between(self@, 0, self@.len() as int),
    {
        Iter::new(self)
    }

    /// The values from the first slot to the last, one at a time, each for
    /// changing it in place.
    pub fn iter_mut(&mut self) -> (iter: IterMut<'_, T>)
        requires
            old(self).wf(),
        ensures
            iter.wf(),
            *iter.stash == *old(self),
            *final(iter.stash) == *final(self),
            iter.begin == 0,
            iter.end == old(self)@.len(),
    {
        IterMut::new(self)
    }

    /// Whether a slot is vacant.
    pub fn has_vacant_entries(&self) -> (vacant: bool)
        ensures
            vacant == (self.header().last_vacant != self.header().len_entries),
    {
        self.header.inner.last_vacant != self.header.inner.len_entries
    }

    /// The vacant slot that the next value goes into, if a slot is vacant.
    pub fn last_vacant_index(&self) -> (index: Option<u32>)
        ensures
            index == if self.header().last_vacant != self.header().len_entries {
                Some(self.header().last_vacant)
            } else {
                None
            },
    {
        if self.has_vacant_entries() {
            Some(self.header.inner.last_vacant)
        } else {
            None
        }
    }

    /// The value in slot `at`; `None` if there is no such slot or it is vacant.
    pub fn get(&self, at: u32) -> (value: Option<&T>)
        requires
            self.wf(),
        ensures
            value.is_some() == value_at(self@, at).is_some(),
            value.is_some() ==> *value.unwrap() == value_at(self@, at).unwrap(),
    {
        if at >= self.len_entries() {
            return None;
        }
        match self.entries.get(at) {
            Some(pack) => match Pack::as_inner(pack) {
                Entry::Occupied(value) => Some(value),
                Entry::Vacant(_) => None,
            },
            None => None,
        }
    }

    /// The value in slot `at`, for changing it in place; `None` if there is no
    /// such slot or it is vacant.
    pub fn get_mut(&mut self, at: u32) -> (value: Option<&mut T>)
        requires
            old(self).wf(),
        ensures
            value.is_some() == value_at(old(self)@, at).is_some(),
            value.is_some() ==> *value.unwrap() == value_at(old(self)@, at).unwrap(),
            value.is_some() ==> final(self)@ == old(self)@.update(
                at as int,
                Entry::Occupied(*final(value.unwrap())),
            ),
            value.is_none() ==> final(self)@ == old(self)@,
            final(self).header() == old(self).header(),
            final(self).base_key() == old(self).base_key(),
            final(self).wf(),
    {
        if at >= self.len_entries() {
            return None;
        }
        proof {
            let entries = self@;
            let header = self.header();
            assert forall|after: Seq<Entry<T>>|
                after =~= entries.update(at as int, after[at as int]) && (entries[at as int] is Vacant
                    ==> after[at as int] == entries[at as int]) && (entries[at as int] is Occupied
                    ==> after[at as int] is Occupied) implies #[trigger] well_formed(
                after,
                header,
            ) by {
                if entries[at as int] is Occupied {
                    lemma_revalue(entries, header, at as int, after[at as int]->Occupied_0);
                } else {
                    assert(after =~= entries);
                }
            }
        }
        match self.entries.get_mut(at) {
            Some(pack) => match Pack::as_inner_mut(pack) {
                Entry::Occupied(value) => Some(value),
                Entry::Vacant(_) => None,
            },
            None => None,
        }
    }

    /// Sets the `prev` link of the vacant slot `index`.
    fn set_prev(&mut self, index: u32, prev: u32)
        requires
            old(self).has_all_cells(),
            index < old(self).header().len_entries,
            old(self)@[index as int] is Vacant,
        ensures
            final(self).has_all_cells(),
            final(self).header() == old(self).header(),
            final(self).base_key() == old(self).base_key(),
            final(self)@ == with_prev(old(self)@, index, prev),
    {
        match self.entries.get_mut(index) {
            Some(pack) => {
                match Pack::as_inner_mut(pack).try_to_vacant_mut() {
                    Some(links) => {
                        links.prev = prev;
                    },
                    None => {},
                }
            },
            None => {},
        }
    }

    /// Sets the `next` link of the vacant slot `index`.
    fn set_next(&mut self, index: u32, next: u32)
        requires
            old(self).has_all_cells(),
            index < old(self).header().len_entries,
            old(self)@[index as int] is Vacant,
        ensures
            final(self).has_all_cells(),
            final(self).header() == old(self).header(),
            final(self).base_key() == old(self).base_key(),
            final(self)@ == with_next(old(self)@, index, next),
    {
        match self.entries.get_mut(index) {
            Some(pack) => {
                match Pack::as_inner_mut(pack).try_to_vacant_mut() {
                    Some(links) => {
                        links.next = next;
                    },
                    None => {},
                }
            },
            None => {},
        }
    }

    /// Sets both links of the vacant slot `index`.
    fn set_links(&mut self, index: u32, prev: u32, next: u32)
        requires
            old(self).has_all_cells(),
            index < old(self).header().len_entries,
            old(self)@[index as int] is Vacant,
        ensures
            final(self).has_all_cells(),
            final(self).header() == old(self).header(),
            final(self).base_key() == old(self).base_key(),
            final(self)@ == old(self)@.update(
                index as int,
                Entry::Vacant(VacantEntry { next, prev }),
            ),
    {
        match self.entries.get_mut(index) {
            Some(pack) => {
                match Pack::as_inner_mut(pack).try_to_vacant_mut() {
                    Some(links) => {
                        links.prev = prev;
                        links.next = next;
                    },
                    None => {},
                }
            },
            None => {},
        }
    }

    /// Takes the slot `removed_index`, which held `vacant_entry` and holds it
    /// no more, off the ring: links its two neighbours to each other and lets
    /// the ring start at the lower of them. If it was alone on the ring, the
    /// header says that no slot is vacant.
    fn remove_vacant_entry(&mut self, removed_index: u32, vacant_entry: VacantEntry)
        requires
            old(self).has_all_cells(),
            !is_alone(removed_index, vacant_entry) ==> {
                &&& vacant_entry.prev < old(self).header().len_entries
                &&& vacant_entry.next < old(self).header().len_entries
                &&& old(self)@[vacant_entry.prev as int] is Vacant
                &&& old(self)@[vacant_entry.next as int] is Vacant
            },
        ensures
            final(self).has_all_cells(),
            final(self).base_key() == old(self).base_key(),
            final(self)@ == unlinked(old(self)@, removed_index, vacant_entry),
            final(self).header() == (Header {
                last_vacant: head_after_unlink(
                    removed_index,
                    vacant_entry,
                    old(self).header().len_entries,
                ),
                len: old(self).header().len,
                len_entries: old(self).header().len_entries,
            }),
    {
        let prev_vacant = vacant_entry.prev;
        let next_vacant = vacant_entry.next;
        if prev_vacant == removed_index && next_vacant == removed_index {
            self.header.inner.last_vacant = self.header.inner.len_entries;
            return ;
        }
        if prev_vacant == next_vacant {
            self.set_links(prev_vacant, prev_vacant, prev_vacant);
        } else {
            self.set_next(prev_vacant, next_vacant);
            self.set_prev(next_vacant, prev_vacant);
        }
        self.header.inner.last_vacant = if prev_vacant <= next_vacant {
            prev_vacant
        } else {
            next_vacant
        };
    }

    /// Puts `new_value` into the stash and returns the index of its slot: the
    /// vacant slot that the header names, or, where no slot is vacant, a new
    /// slot at the end.
    pub fn put(&mut self, new_value: T) -> (index: u32)
        requires
            old(self).wf(),
            old(self).header().len < u32::MAX,
        ensures
            final(self).wf(),
            final(self).base_key() == old(self).base_key(),
            index == old(self).header().last_vacant,
            final(self)@ == refilled(old(self)@, old(self).header(), new_value),
            final(self).header() == header_after_put(old(self)@, old(self).header()),
            value_at(final(self)@, index) == Some(new_value),
            values(final(self)@) == values(old(self)@).insert(new_value),
    {
        proof {
            lemma_put_well_formed(self@, self.header(), new_value);
            if self.header().last_vacant != self.header().len_entries {
                lemma_head_links(self@, self.header());
            }
        }
        let new_entry = Some(Pack::new(Entry::Occupied(new_value)));
        let new_index = match self.last_vacant_index() {
            Some(index) => {
                let old_entry = self.entries.put_get(index, new_entry);
                assert(self@ =~= old(self)@.update(index as int, Entry::Occupied(new_value)));
                match old_entry {
                    Some(pack) => match Pack::into_inner(pack) {
                        Entry::Vacant(vacant_entry) => {
                            self.remove_vacant_entry(index, vacant_entry);
                        },
                        Entry::Occupied(_) => {
                            unreached::<()>();
                        },
                    },
                    None => {
                        unreached::<()>();
                    },
                }
                index
            },
            None => {
                let index = self.header.inner.len_entries;
                self.entries.put(index, new_entry);
                self.header.inner.len_entries = index + 1;
                self.header.inner.last_vacant = index + 1;
                assert(self@ =~= old(self)@.push(Entry::Occupied(new_value)));
                index
            },
        };
        self.header.inner.len += 1;
        new_index
    }

    /// Takes the value out of slot `at`, which is vacant afterwards and the
    /// first to be filled again. `None`, and nothing changes, if there is no
    /// such slot or it is vacant.
    pub fn take(&mut self, at: u32) -> (value: Option<T>)
        requires
            old(self).wf(),
        ensures
            value == value_at(old(self)@, at),
            value.is_none() ==> final(self)@ == old(self)@ && final(self).header() == old(self).header(),
            value.is_some() ==> final(self)@ == vacated(old(self)@, old(self).header(), at)
                && final(self).header() == header_after_take(old(self).header(), at),
            value.is_some() ==> values(final(self)@).insert(value.unwrap()) == values(old(self)@),
            final(self).base_key() == old(self).base_key(),
            final(self).wf(),
    {
        if at >= self.len_entries() {
            return None;
        }
        proof {
            if self.header().last_vacant != self.header().len_entries {
                lemma_head_links(self@, self.header());
            }
            if self@[at as int] is Occupied {
                lemma_take_well_formed(self@, self.header(), at);
            }
        }
        let (prev, next) = match self.last_vacant_index() {
            Some(index) => {
                match self.entries.get(index) {
                    Some(pack) => match Pack::as_inner(pack).try_to_vacant() {
                        Some(vacant_entry) => (vacant_entry.prev, index),
                        None => unreached(),
                    },
                    None => unreached(),
                }
            },
            None => (at, at),
        };
        let occupied = match self.entries.get(at) {
            Some(pack) => Pack::as_inner(pack).is_occupied(),
            None => false,
        };
        if !occupied {
            return None;
        }
        let mut taken_entry = Entry::Vacant(VacantEntry { next, prev });
        match self.entries.get_mut(at) {
            Some(pack) => {
                core::mem::swap(Pack::as_inner_mut(pack), &mut taken_entry);
            },
            None => {
                unreached::<()>();
            },
        }
        assert(self@ =~= old(self)@.update(
            at as int,
            Entry::Vacant(VacantEntry { next, prev }),
        ));
        if prev == next {
            self.set_links(next, at, at);
        } else {
            self.set_next(prev, at);
            self.set_prev(next, at);
        }
        match taken_entry {
            Entry::Occupied(value) => {
                self.header.inner.last_vacant = at;
                self.header.inner.len -= 1;
                Some(value)
            },
            Entry::Vacant(_) => unreached(),
        }
    }

    /// Compacts the stash: as long as a slot is vacant, and for at most
    /// `max_iterations` steps if that is given, drops the last slot. If that
    /// slot held a value, the value moves into the vacant slot that the header
    /// names, and `callback` is told the slot it left, the slot it goes to and
    /// the value before it is put there.
    pub fn defrag<C>(&mut self, max_iterations: Option<u32>, mut callback: C) where
        C: FnMut(u32, u32, &T),

        requires
            old(self).wf(),
            forall|from: u32, to: u32, value: &T|
                to < from < old(self).header().len_entries ==> callback.requires(
                    (from, to, value),
                ),
        ensures
            (final(self)@, final(self).header()) == compacted(
                old(self)@,
                old(self).header(),
                match max_iterations {
                    Some(limit) => limit as nat,
                    None => old(self).header().len_entries as nat,
                },
            ),
            was_told(
                callback,
                relocations(
                    old(self)@,
                    old(self).header(),
                    match max_iterations {
                        Some(limit) => limit as nat,
                        None => old(self).header().len_entries as nat,
                    },
                ),
            ),
            final(self).base_key() == old(self).base_key(),
            final(self).wf(),
            final(self).header().len == old(self).header().len,
            final(self).header().len_entries <= old(self).header().len_entries,
            max_iterations.is_none() ==> final(self).header().len_entries == final(self).header().len,
            values(final(self)@) == values(old(self)@),
            forall|i: int|
                0 <= i < final(self)@.len() && old(self)@[i] is Occupied ==> #[trigger] final(self)@[i] == old(self)@[i],
    {
        let len_entries = self.len_entries();
        proof {
            theorem_compaction(
                self@,
                self.header(),
                match max_iterations {
                    Some(limit) => limit as nat,
                    None => len_entries as nat,
                },
            );
        }
        let limit = match max_iterations {
            Some(limit) => limit,
            None => len_entries,
        };
        let mut done: u32 = 0;
        let ghost mut moved: Seq<(u32, u32, T)> = Seq::empty();
        let ghost told = callback;
        while done < limit && self.has_vacant_entries()
            invariant
                self.wf(),
                callback == told,
                moved + relocations(self@, self.header(), (limit - done) as nat) == relocations(
                    old(self)@,
                    old(self).header(),
                    limit as nat,
                ),
                was_told(callback, moved),
                self.base_key() == old(self).base_key(),
                done <= limit,
                self.header().len_entries <= old(self).header().len_entries,
                forall|from: u32, to: u32, value: &T|
                    to < from < old(self).header().len_entries ==> callback.requires(
                        (from, to, value),
                    ),
                compacted(self@, self.header(), (limit - done) as nat) == compacted(
                    old(self)@,
                    old(self).header(),
                    limit as nat,
                ),
            decreases limit - done,
        {
            let ghost before = self@;
            let ghost before_header = self.header();
            proof {
                lemma_compact_once(before, before_header);
            }
            let index = self.header.inner.len_entries - 1;
            let top = self.entries.take(index);
            self.header.inner.len_entries = index;
            assert(self@ =~= before.drop_last());
            match top {
                Some(pack) => match Pack::into_inner(pack) {
                    Entry::Vacant(vacant_entry) => {
                        self.remove_vacant_entry(index, vacant_entry);
                    },
                    Entry::Occupied(value) => {
                        let vacant_index = self.header.inner.last_vacant;
                        callback(index, vacant_index, &value);
                        proof {
                            let later = relocations(
                                compacted_once(before, before_header),
                                header_compacted_once(before, before_header),
                                (limit - done - 1) as nat,
                            );
                            let longer = moved.push((index, vacant_index, value));
                            assert(longer + later =~= moved + (seq![(index, vacant_index, value)]
                                + later));
                            moved = longer;
                        }
                        let new_entry = Some(Pack::new(Entry::Occupied(value)));
                        let old_entry = self.entries.put_get(vacant_index, new_entry);
                        assert(self@ =~= before.drop_last().update(
                            vacant_index as int,
                            Entry::Occupied(value),
                        ));
                        match old_entry {
                            Some(pack) => match Pack::into_inner(pack) {
                                Entry::Vacant(vacant_entry) => {
                                    self.remove_vacant_entry(vacant_index, vacant_entry);
                                },
                                Entry::Occupied(_) => {
                                    unreached::<()>();
                                },
                            },
                            None => {
                                unreached::<()>();
                            },
                        }
                    },
                },
                None => {
                    unreached::<()>();
                },
            }
            done += 1;
        }
    }
}

} // verus!
