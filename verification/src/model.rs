//! What the operations of a stash do to its slots and its header, and that
//! they keep the two well formed.

use vstd::prelude::*;
use crate::counts::{
    held, lemma_multiset_cancel, lemma_relink_counts, lemma_update_counts, occupied_count, values,
};
use crate::entry::{Entry, Header, VacantEntry};
use crate::ring::{
    covered, head_after_unlink, is_alone, is_ring, lemma_ring_avoids_occupied,
    lemma_ring_drop_last, lemma_ring_rotate, lemma_ring_unlink, linked_at, ring_next,
    rotated, unlinked, with_next, with_prev,
};

verus! {

/// The header counts the slots of `entries`, and `free`, a ring of its
/// vacant slots, starts at the slot that the header names.
pub open spec fn header_fits<T>(entries: Seq<Entry<T>>, header: Header, free: Seq<u32>) -> bool {
    &&& entries.len() == header.len_entries
    &&& header.len == occupied_count(entries)
    &&& header.len + free.len() == header.len_entries
    &&& if free.len() == 0 {
        header.last_vacant == header.len_entries
    } else {
        header.last_vacant == free[0]
    }
}

/// The slots and the header of a stash agree: the vacant slots form one
/// ring, which starts at `header.last_vacant`, and the header counts the slots
/// and the occupied ones. Without a vacant slot `header.last_vacant` is the
/// number of slots.
pub open spec fn well_formed<T>(entries: Seq<Entry<T>>, header: Header) -> bool {
    exists|free: Seq<u32>| is_ring(entries, free) && #[trigger] header_fits(entries, header, free)
}

/// The value in slot `at` of `entries`, if the slot exists and is occupied.
pub open spec fn value_at<T>(entries: Seq<Entry<T>>, at: u32) -> Option<T> {
    if at < entries.len() && entries[at as int] is Occupied {
        Some(entries[at as int]->Occupied_0)
    } else {
        None
    }
}

/// `entries` after `value` has been put into the stash: into the slot
/// `header.last_vacant`, which leaves the ring, or, where no slot was vacant,
/// into a new slot at the end.
pub open spec fn refilled<T>(entries: Seq<Entry<T>>, header: Header, value: T) -> Seq<Entry<T>> {
    if header.last_vacant == header.len_entries {
        entries.push(Entry::Occupied(value))
    } else {
        unlinked(
            entries.update(header.last_vacant as int, Entry::Occupied(value)),
            header.last_vacant,
            entries[header.last_vacant as int]->Vacant_0,
        )
    }
}

/// The header after a value has been put into the stash.
pub open spec fn header_after_put<T>(entries: Seq<Entry<T>>, header: Header) -> Header {
    if header.last_vacant == header.len_entries {
        Header {
            last_vacant: (header.len_entries + 1) as u32,
            len: (header.len + 1) as u32,
            len_entries: (header.len_entries + 1) as u32,
        }
    } else {
        Header {
            last_vacant: head_after_unlink(
                header.last_vacant,
                entries[header.last_vacant as int]->Vacant_0,
                header.len_entries,
            ),
            len: (header.len + 1) as u32,
            len_entries: header.len_entries,
        }
    }
}

/// `entries` after the occupied slot `at` has been vacated: it enters the
/// ring in front of the slot `header.last_vacant`, or, where no slot was
/// vacant, forms a ring of its own.
pub open spec fn vacated<T>(entries: Seq<Entry<T>>, header: Header, at: u32) -> Seq<Entry<T>> {
    if header.last_vacant == header.len_entries {
        entries.update(at as int, Entry::Vacant(VacantEntry { next: at, prev: at }))
    } else {
        let head = header.last_vacant;
        let tail = entries[head as int]->Vacant_0.prev;
        let linked = entries.update(
            at as int,
            Entry::Vacant(VacantEntry { next: head, prev: tail }),
        );
        with_prev(with_next(linked, tail, at), head, at)
    }
}

/// The header after the occupied slot `at` has been vacated.
pub open spec fn header_after_take(header: Header, at: u32) -> Header {
    Header { last_vacant: at, len: (header.len - 1) as u32, len_entries: header.len_entries }
}

/// The header after the last slot has been dropped and the slot `removed`,
/// which held `links`, has left the ring.
pub open spec fn header_after_drop(header: Header, removed: u32, links: VacantEntry) -> Header {
    Header {
        last_vacant: head_after_unlink(removed, links, (header.len_entries - 1) as u32),
        len: header.len,
        len_entries: (header.len_entries - 1) as u32,
    }
}

/// `entries` after one step of compaction: the last slot is dropped. If it
/// was vacant, it leaves the ring; if it was occupied, its value fills the
/// slot `header.last_vacant`, which leaves the ring.
pub open spec fn compacted_once<T>(entries: Seq<Entry<T>>, header: Header) -> Seq<Entry<T>> {
    match entries.last() {
        Entry::Vacant(links) => unlinked(
            entries.drop_last(),
            (header.len_entries - 1) as u32,
            links,
        ),
        Entry::Occupied(value) => unlinked(
            entries.drop_last().update(header.last_vacant as int, Entry::Occupied(value)),
            header.last_vacant,
            entries[header.last_vacant as int]->Vacant_0,
        ),
    }
}

/// The header after one step of compaction.
pub open spec fn header_compacted_once<T>(entries: Seq<Entry<T>>, header: Header) -> Header {
    match entries.last() {
        Entry::Vacant(links) => header_after_drop(
            header,
            (header.len_entries - 1) as u32,
            links,
        ),
        Entry::Occupied(_) => header_after_drop(
            header,
            header.last_vacant,
            entries[header.last_vacant as int]->Vacant_0,
        ),
    }
}

/// The slots and the header after compaction has gone on for `steps` steps,
/// or for as many as it takes until no slot is vacant, if that is fewer.
pub open spec fn compacted<T>(entries: Seq<Entry<T>>, header: Header, steps: nat) -> (
    Seq<Entry<T>>,
    Header,
)
    decreases steps,
{
    if steps == 0 || header.last_vacant == header.len_entries {
        (entries, header)
    } else {
        compacted(
            compacted_once(entries, header),
            header_compacted_once(entries, header),
            (steps - 1) as nat,
        )
    }
}

/// The values that compaction moves in `steps` steps, in the order in which
/// it moves them, each with the slot that it leaves and the slot that it goes
/// to.
pub open spec fn relocations<T>(entries: Seq<Entry<T>>, header: Header, steps: nat) -> Seq<
    (u32, u32, T),
>
    decreases steps,
{
    if steps == 0 || header.last_vacant == header.len_entries {
        Seq::empty()
    } else {
        let later = relocations(
            compacted_once(entries, header),
            header_compacted_once(entries, header),
            (steps - 1) as nat,
        );
        match entries.last() {
            Entry::Occupied(value) => seq![
                ((header.len_entries - 1) as u32, header.last_vacant, value),
            ] + later,
            Entry::Vacant(_) => later,
        }
    }
}

/// A stash without slots is well formed.
pub proof fn lemma_empty_well_formed<T>()
    ensures
        well_formed(Seq::<Entry<T>>::empty(), Header { last_vacant: 0, len: 0, len_entries: 0 }),
{
    let entries = Seq::<Entry<T>>::empty();
    let header = Header { last_vacant: 0, len: 0, len_entries: 0 };
    assert(header_fits(entries, header, Seq::<u32>::empty()));
}

/// A well-formed stash has no vacant slot exactly if all its slots are
/// occupied, and never more values than slots.
pub proof fn lemma_vacancy<T>(entries: Seq<Entry<T>>, header: Header)
    requires
        well_formed(entries, header),
    ensures
        header.len <= header.len_entries,
        (header.last_vacant == header.len_entries) == (header.len == header.len_entries),
{
    let free = choose|free: Seq<u32>| is_ring(entries, free) && #[trigger] header_fits(entries, header, free);
    if free.len() > 0 {
        assert(linked_at(entries, free, 0));
    }
}

/// In a well-formed stash with a vacant slot, the slot that the header names
/// is vacant, and so are its two neighbours on the ring, which are that slot
/// itself only if it is alone.
pub proof fn lemma_head_links<T>(entries: Seq<Entry<T>>, header: Header)
    requires
        well_formed(entries, header),
        header.last_vacant != header.len_entries,
    ensures
        header.last_vacant < header.len_entries,
        header.len < header.len_entries,
        entries[header.last_vacant as int] is Vacant,
        ({
            let links = entries[header.last_vacant as int]->Vacant_0;
            &&& links.prev < header.len_entries
            &&& links.next < header.len_entries
            &&& entries[links.prev as int] is Vacant
            &&& entries[links.next as int] is Vacant
            &&& links.prev == header.last_vacant <==> links.next == header.last_vacant
        }),
{
    let free = choose|free: Seq<u32>| is_ring(entries, free) && #[trigger] header_fits(entries, header, free);
    if free.len() > 0 {
        let n = free.len() as int;
        assert(linked_at(entries, free, 0));
        assert(linked_at(entries, free, n - 1));
        assert(linked_at(entries, free, ring_next(0, n)));
    }
}

/// An occupied slot may get another value.
pub proof fn lemma_revalue<T>(entries: Seq<Entry<T>>, header: Header, at: int, value: T)
    requires
        well_formed(entries, header),
        0 <= at < entries.len(),
        entries[at] is Occupied,
    ensures
        well_formed(entries.update(at, Entry::Occupied(value)), header),
{
    let free = choose|free: Seq<u32>| is_ring(entries, free) && #[trigger] header_fits(entries, header, free);
    let after = entries.update(at, Entry::Occupied(value));
    lemma_ring_avoids_occupied(entries, free, at);
    assert forall|i: int| 0 <= i < free.len() implies #[trigger] linked_at(after, free, i) by {
        assert(linked_at(entries, free, i));
    }
    assert forall|j: int| 0 <= j < after.len() implies #[trigger] covered(after, free, j) by {
        assert(covered(entries, free, j));
    }
    lemma_update_counts(entries, at, Entry::Occupied(value));
    assert(header_fits(after, header, free));
}

/// Vacating an occupied slot puts it at the start of the ring.
pub proof fn lemma_ring_vacate<T>(
    entries: Seq<Entry<T>>,
    header: Header,
    free: Seq<u32>,
    at: u32,
) -> (grown: Seq<u32>)
    requires
        is_ring(entries, free),
        header_fits(entries, header, free),
        at < entries.len(),
        entries[at as int] is Occupied,
    ensures
        grown.len() == free.len() + 1,
        grown[0] == at,
        is_ring(vacated(entries, header, at), grown),
        vacated(entries, header, at).len() == entries.len(),
        occupied_count(vacated(entries, header, at)) + 1 == occupied_count(entries),
        values(vacated(entries, header, at)).add(held(entries[at as int])) == values(entries),
{
    let n = free.len() as int;
    let after = vacated(entries, header, at);
    let grown = Seq::new((n + 1) as nat, |i: int| if i == 0 { at } else { free[i - 1] });
    lemma_ring_avoids_occupied(entries, free, at as int);
    if n == 0 {
        lemma_update_counts(entries, at as int, Entry::Vacant(VacantEntry { next: at, prev: at }));
        assert forall|j: int| 0 <= j < after.len() implies #[trigger] covered(after, grown, j) by {
            assert(covered(entries, free, j));
            if j == at {
                assert(grown[0] == j);
            }
        }
    } else {
        let head = header.last_vacant;
        assert(linked_at(entries, free, 0));
        assert(linked_at(entries, free, n - 1));
        let tail = entries[head as int]->Vacant_0.prev;
        let linked = entries.update(
            at as int,
            Entry::Vacant(VacantEntry { next: head, prev: tail }),
        );
        let step = with_next(linked, tail, at);
        lemma_update_counts(entries, at as int, Entry::Vacant(VacantEntry { next: head, prev: tail }));
        lemma_relink_counts(linked, tail as int, VacantEntry { next: at, prev: linked[tail as int]->Vacant_0.prev });
        lemma_relink_counts(step, head as int, VacantEntry { next: step[head as int]->Vacant_0.next, prev: at });
        assert forall|i: int| 0 <= i < grown.len() implies #[trigger] linked_at(after, grown, i) by {
            if i > 0 {
                assert(linked_at(entries, free, i - 1));
            }
        }
        assert forall|j: int| 0 <= j < after.len() implies #[trigger] covered(after, grown, j) by {
            assert(covered(entries, free, j));
            if j == at {
                assert(grown[0] == j);
            } else if after[j] is Vacant {
                let k = choose|k: int| 0 <= k < free.len() && free[k] == j;
                assert(grown[k + 1] == j);
            }
        }
    }
    grown
}

/// Putting a value into a well-formed stash leaves it well formed, with one
/// more occupied slot and that value more.
pub proof fn lemma_put_well_formed<T>(entries: Seq<Entry<T>>, header: Header, value: T)
    requires
        well_formed(entries, header),
        header.len < u32::MAX,
    ensures
        well_formed(refilled(entries, header, value), header_after_put(entries, header)),
        header.last_vacant != header.len_entries ==> header.last_vacant < header.len_entries
            && entries[header.last_vacant as int] is Vacant,
        header.last_vacant == header.len_entries ==> header.len_entries < u32::MAX,
        values(refilled(entries, header, value)) == values(entries).insert(value),
{
    let free = choose|free: Seq<u32>| is_ring(entries, free) && #[trigger] header_fits(entries, header, free);
    let after = refilled(entries, header, value);
    let after_header = header_after_put(entries, header);
    let filled = Entry::Occupied(value);
    if header.last_vacant == header.len_entries {
        if free.len() > 0 {
            assert(linked_at(entries, free, 0));
        }
        assert(after.drop_last() =~= entries);
        assert forall|j: int| 0 <= j < after.len() implies #[trigger] covered(after, free, j) by {
            if j < entries.len() {
                assert(covered(entries, free, j));
            }
        }
        assert(header_fits(after, after_header, free));
    } else {
        assert(linked_at(entries, free, 0));
        let rest = lemma_ring_unlink(entries, free, filled);
        assert(header_fits(after, after_header, rest));
    }
}

/// Vacating an occupied slot of a well-formed stash leaves it well formed,
/// with one occupied slot and its value less.
pub proof fn lemma_take_well_formed<T>(entries: Seq<Entry<T>>, header: Header, at: u32)
    requires
        well_formed(entries, header),
        at < entries.len(),
        entries[at as int] is Occupied,
    ensures
        well_formed(vacated(entries, header, at), header_after_take(header, at)),
        header.len > 0,
        header.last_vacant != header.len_entries ==> {
            &&& header.last_vacant < header.len_entries
            &&& entries[header.last_vacant as int] is Vacant
            &&& entries[header.last_vacant as int]->Vacant_0.prev < header.len_entries
            &&& entries[entries[header.last_vacant as int]->Vacant_0.prev as int] is Vacant
        },
        values(vacated(entries, header, at)).insert(entries[at as int]->Occupied_0) == values(
            entries,
        ),
{
    let free = choose|free: Seq<u32>| is_ring(entries, free) && #[trigger] header_fits(entries, header, free);
    let grown = lemma_ring_vacate(entries, header, free, at);
    if free.len() > 0 {
        assert(linked_at(entries, free, 0));
        assert(linked_at(entries, free, free.len() - 1));
    }
    assert(header_fits(vacated(entries, header, at), header_after_take(header, at), grown));
    assert(values(vacated(entries, header, at)).insert(entries[at as int]->Occupied_0)
        =~= values(vacated(entries, header, at)).add(held(entries[at as int])));
}

/// One step of compaction leaves a well-formed stash well formed, with the
/// same values, one slot less, and every occupied slot that is left as it
/// was.
pub proof fn lemma_compact_once<T>(entries: Seq<Entry<T>>, header: Header)
    requires
        well_formed(entries, header),
        header.last_vacant != header.len_entries,
    ensures
        header.len_entries > 0,
        header.last_vacant < header.len_entries,
        entries[header.last_vacant as int] is Vacant,
        entries.last() is Occupied ==> header.last_vacant < header.len_entries - 1,
        ({
            let links = match entries.last() {
                Entry::Vacant(links) => links,
                Entry::Occupied(_) => entries[header.last_vacant as int]->Vacant_0,
            };
            let removed = match entries.last() {
                Entry::Vacant(_) => (header.len_entries - 1) as u32,
                Entry::Occupied(_) => header.last_vacant,
            };
            !is_alone(removed, links) ==> {
                &&& links.prev < header.len_entries - 1
                &&& links.next < header.len_entries - 1
                &&& links.prev != removed
                &&& links.next != removed
                &&& entries[links.prev as int] is Vacant
                &&& entries[links.next as int] is Vacant
            }
        }),
        well_formed(compacted_once(entries, header), header_compacted_once(entries, header)),
        compacted_once(entries, header).len() == entries.len() - 1,
        values(compacted_once(entries, header)) == values(entries),
        forall|i: int|
            0 <= i < entries.len() - 1 && entries[i] is Occupied ==> #[trigger] compacted_once(
                entries,
                header,
            )[i] == entries[i],
{
    let free = choose|free: Seq<u32>| is_ring(entries, free) && #[trigger] header_fits(entries, header, free);
    let n = free.len() as int;
    assert(linked_at(entries, free, 0));
    let top = (header.len_entries - 1) as u32;
    let kept = entries.drop_last();
    let after = compacted_once(entries, header);
    let after_header = header_compacted_once(entries, header);
    match entries.last() {
        Entry::Vacant(links) => {
            assert(covered(entries, free, top as int));
            let k = choose|k: int| 0 <= k < free.len() && free[k] == top;
            lemma_ring_rotate(entries, free, k);
            let turned = rotated(free, k);
            assert(linked_at(entries, turned, 0));
            assert(linked_at(entries, turned, n - 1));
            assert(linked_at(entries, turned, ring_next(0, n)));
            let filled = Entry::Occupied(arbitrary::<T>());
            let rest = lemma_ring_unlink(entries, turned, filled);
            let unlinked_all = unlinked(entries.update(top as int, filled), top, links);
            lemma_ring_drop_last(unlinked_all, rest);
            assert(unlinked_all.drop_last() =~= after);
            lemma_multiset_cancel(values(after), values(entries), held(filled));
            assert(header_fits(after, after_header, rest));
        },
        Entry::Occupied(value) => {
            lemma_ring_drop_last(entries, free);
            lemma_ring_avoids_occupied(entries, free, top as int);
            assert(linked_at(entries, free, n - 1));
            assert(linked_at(entries, free, ring_next(0, n)));
            let rest = lemma_ring_unlink(kept, free, Entry::Occupied(value));
            assert(header_fits(after, after_header, rest));
        },
    }
}

} // verus!
