//! What holds of every well-formed stash.

use vstd::prelude::*;
use crate::counts::{lemma_values_len, occupied_count, values};
use crate::entry::{Entry, Header};
use crate::model::{
    compacted, compacted_once, header_after_put, header_after_take, header_compacted_once,
    header_fits, lemma_compact_once, lemma_empty_well_formed, lemma_head_links,
    lemma_put_well_formed, lemma_take_well_formed, lemma_vacancy, refilled, vacated, value_at,
    well_formed,
};
use crate::ring::{covered, is_ring, linked_at};

verus! {

/// The slot that is reached from the slot `start` by following the `next`
/// link `steps` times.
pub open spec fn walk<T>(entries: Seq<Entry<T>>, start: u32, steps: nat) -> u32
    decreases steps,
{
    if steps == 0 {
        start
    } else {
        entries[walk(entries, start, (steps - 1) as nat) as int]->Vacant_0.next
    }
}

/// The number of vacant slots that a header tells of.
pub open spec fn vacant_count(header: Header) -> int {
    header.len_entries - header.len
}

/// The header counts the occupied slots: `len` is their number, and the
/// slots that are left are vacant.
pub proof fn theorem_len_counts_occupied<T>(entries: Seq<Entry<T>>, header: Header)
    requires
        well_formed(entries, header),
    ensures
        header.len == occupied_count(entries),
        header.len == values(entries).len(),
        header.len <= header.len_entries,
        entries.len() == header.len_entries,
{
    lemma_vacancy(entries, header);
    lemma_values_len(entries);
}

/// A value goes into a vacant slot if there is one, and into a new slot at
/// the end only if there is none: the index that `put` returns, which is
/// `header.last_vacant`, is that of a vacant slot or the number of slots, and
/// it is the number of slots exactly if every slot is occupied.
pub proof fn theorem_put_fills_vacant_first<T>(entries: Seq<Entry<T>>, header: Header)
    requires
        well_formed(entries, header),
    ensures
        header.last_vacant <= header.len_entries,
        header.last_vacant < header.len_entries ==> entries[header.last_vacant as int] is Vacant,
        (header.last_vacant == header.len_entries) == (occupied_count(entries) == entries.len()),
{
    lemma_vacancy(entries, header);
    if header.last_vacant != header.len_entries {
        lemma_head_links(entries, header);
    }
}

/// The slot that was vacated last is filled first: after a value has been
/// taken out of the slot `at`, the next value that is put goes into `at`,
/// and the slot holds it.
pub proof fn theorem_last_vacated_is_reused_first<T>(
    entries: Seq<Entry<T>>,
    header: Header,
    at: u32,
    value: T,
)
    requires
        well_formed(entries, header),
        value_at(entries, at).is_some(),
    ensures
        well_formed(vacated(entries, header, at), header_after_take(header, at)),
        header_after_take(header, at).last_vacant == at,
        value_at(
            refilled(vacated(entries, header, at), header_after_take(header, at), value),
            at,
        ) == Some(value),
        header_after_put(vacated(entries, header, at), header_after_take(header, at)).len
            == header.len,
{
    lemma_take_well_formed(entries, header, at);
    theorem_put_then_take(vacated(entries, header, at), header_after_take(header, at), value);
}

/// A value that has been put can be taken out again: the slot whose index
/// `put` returns holds the value, so that `take` of that index returns it,
/// and the stash then holds the values that it held before the two calls.
pub proof fn theorem_put_then_take<T>(entries: Seq<Entry<T>>, header: Header, value: T)
    requires
        well_formed(entries, header),
        header.len < u32::MAX,
    ensures
        well_formed(refilled(entries, header, value), header_after_put(entries, header)),
        value_at(refilled(entries, header, value), header.last_vacant) == Some(value),
        ({
            let put = refilled(entries, header, value);
            let put_header = header_after_put(entries, header);
            &&& well_formed(
                vacated(put, put_header, header.last_vacant),
                header_after_take(put_header, header.last_vacant),
            )
            &&& values(vacated(put, put_header, header.last_vacant)) == values(entries)
            &&& header_after_take(put_header, header.last_vacant).len == header.len
        }),
{
    lemma_put_well_formed(entries, header, value);
    let put = refilled(entries, header, value);
    let put_header = header_after_put(entries, header);
    let at = header.last_vacant;
    if header.last_vacant != header.len_entries {
        lemma_head_links(entries, header);
    }
    lemma_take_well_formed(put, put_header, at);
    let taken = vacated(put, put_header, at);
    assert forall|other: T| values(taken).count(other) == values(entries).count(other) by {
        assert(values(taken).insert(value).count(other) == values(entries).insert(value).count(
            other,
        ));
    }
}

/// The ring of vacant slots is closed and holds the vacant slots and no
/// others: following the `next` links from `header.last_vacant` leads through
/// vacant slots only, comes back to `header.last_vacant` after as many steps
/// as there are vacant slots and not before, and passes every vacant slot on
/// the way.
pub proof fn theorem_ring_is_closed<T>(entries: Seq<Entry<T>>, header: Header)
    requires
        well_formed(entries, header),
    ensures
        vacant_count(header) >= 0,
        walk(entries, header.last_vacant, vacant_count(header) as nat) == header.last_vacant,
        forall|steps: nat|
            steps < vacant_count(header) ==> {
                &&& (#[trigger] walk(entries, header.last_vacant, steps)) < entries.len()
                &&& entries[walk(entries, header.last_vacant, steps) as int] is Vacant
            },
        forall|steps: nat|
            0 < steps < vacant_count(header) ==> #[trigger] walk(
                entries,
                header.last_vacant,
                steps,
            ) != header.last_vacant,
        forall|j: int|
            0 <= j < entries.len() && (#[trigger] entries[j]) is Vacant ==> exists|steps: nat|
                steps < vacant_count(header) && #[trigger] walk(entries, header.last_vacant, steps)
                    == j,
{
    let free = choose|free: Seq<u32>| is_ring(entries, free) && #[trigger] header_fits(entries, header, free);
    let n = free.len();
    assert forall|steps: nat| steps < n implies {
        &&& (#[trigger] walk(entries, header.last_vacant, steps)) == free[steps as int]
        &&& walk(entries, header.last_vacant, steps) < entries.len()
        &&& entries[walk(entries, header.last_vacant, steps) as int] is Vacant
    } by {
        lemma_walk_follows_ring(entries, free, steps);
        assert(linked_at(entries, free, steps as int));
    }
    if n > 0 {
        lemma_walk_follows_ring(entries, free, (n - 1) as nat);
        assert(linked_at(entries, free, n - 1));
    }
    assert forall|j: int| 0 <= j < entries.len() && (#[trigger] entries[j]) is Vacant implies exists|
        steps: nat,
    |
        steps < vacant_count(header) && #[trigger] walk(entries, header.last_vacant, steps) == j by {
        assert(covered(entries, free, j));
        let i = choose|i: int| 0 <= i < free.len() && free[i] == j;
        assert(walk(entries, header.last_vacant, i as nat) == free[i]);
    }
}

/// Following the `next` links from the first slot of a ring leads to the
/// slots of the ring in their order.
pub proof fn lemma_walk_follows_ring<T>(entries: Seq<Entry<T>>, free: Seq<u32>, steps: nat)
    requires
        is_ring(entries, free),
        steps < free.len(),
    ensures
        walk(entries, free[0], steps) == free[steps as int],
    decreases steps,
{
    if steps > 0 {
        lemma_walk_follows_ring(entries, free, (steps - 1) as nat);
        assert(linked_at(entries, free, steps - 1));
    }
}

/// The number of steps that compaction takes when it may take `steps`: one
/// for each vacant slot, as far as the steps go.
pub open spec fn steps_taken(header: Header, steps: nat) -> int {
    if steps <= vacant_count(header) {
        steps as int
    } else {
        vacant_count(header)
    }
}

/// Compaction keeps the values and their number, and the stash well formed.
/// It drops one slot for each step that it takes, so that none is vacant
/// once it has taken as many steps as slots were vacant, and it leaves every
/// occupied slot that it does not drop as it was.
pub proof fn theorem_compaction<T>(entries: Seq<Entry<T>>, header: Header, steps: nat)
    requires
        well_formed(entries, header),
    ensures
        well_formed(compacted(entries, header, steps).0, compacted(entries, header, steps).1),
        compacted(entries, header, steps).1.len == header.len,
        values(compacted(entries, header, steps).0) == values(entries),
        compacted(entries, header, steps).1.len_entries == header.len_entries - steps_taken(
            header,
            steps,
        ),
        compacted(entries, header, steps).1.len_entries <= header.len_entries,
        steps >= vacant_count(header) ==> compacted(entries, header, steps).1.len_entries
            == header.len,
        compacted(entries, header, steps).0.len() == compacted(
            entries,
            header,
            steps,
        ).1.len_entries,
        forall|i: int|
            0 <= i < compacted(entries, header, steps).0.len() && entries[i] is Occupied
                ==> #[trigger] compacted(entries, header, steps).0[i] == entries[i],
    decreases steps,
{
    lemma_vacancy(entries, header);
    if steps > 0 && header.last_vacant != header.len_entries {
        lemma_compact_once(entries, header);
        let once = compacted_once(entries, header);
        let once_header = header_compacted_once(entries, header);
        theorem_compaction(once, once_header, (steps - 1) as nat);
        lemma_vacancy(once, once_header);
    }
}

/// A call that changes which slots a stash has or which of them are occupied.
pub enum Operation<T> {
    /// `put` of a value.
    Put(T),
    /// `take` of the slot with an index.
    Take(u32),
}

/// The slots and the header of a stash after `operation`.
pub open spec fn applied<T>(entries: Seq<Entry<T>>, header: Header, operation: Operation<T>) -> (
    Seq<Entry<T>>,
    Header,
) {
    match operation {
        Operation::Put(value) => (
            refilled(entries, header, value),
            header_after_put(entries, header),
        ),
        Operation::Take(at) => if value_at(entries, at).is_some() {
            (vacated(entries, header, at), header_after_take(header, at))
        } else {
            (entries, header)
        },
    }
}

/// The slots and the header of a stash that was new before `operations`
/// were made on it in their order.
pub open spec fn applied_all<T>(operations: Seq<Operation<T>>) -> (Seq<Entry<T>>, Header)
    decreases operations.len(),
{
    if operations.len() == 0 {
        (Seq::empty(), Header { last_vacant: 0, len: 0, len_entries: 0 })
    } else {
        let before = applied_all(operations.drop_last());
        applied(before.0, before.1, operations.last())
    }
}

/// Whatever is put into a new stash and taken out of it, and in whatever
/// order, the stash stays well formed. Fewer than `u32::MAX` calls cannot
/// fill it.
pub proof fn theorem_puts_and_takes_keep_well_formed<T>(operations: Seq<Operation<T>>)
    requires
        operations.len() < u32::MAX,
    ensures
        well_formed(applied_all(operations).0, applied_all(operations).1),
        applied_all(operations).1.len <= operations.len(),
    decreases operations.len(),
{
    if operations.len() == 0 {
        lemma_empty_well_formed::<T>();
    } else {
        theorem_puts_and_takes_keep_well_formed(operations.drop_last());
        let before = applied_all(operations.drop_last());
        match operations.last() {
            Operation::Put(value) => {
                lemma_put_well_formed(before.0, before.1, value);
            },
            Operation::Take(at) => {
                if value_at(before.0, at).is_some() {
                    lemma_take_well_formed(before.0, before.1, at);
                }
            },
        }
    }
}

/// Every slot that is vacant has been vacated by a `take`: a value that is
/// put into a vacant slot goes where a value was taken out before.
pub proof fn theorem_vacant_slots_were_taken<T>(operations: Seq<Operation<T>>, slot: u32)
    requires
        operations.len() < u32::MAX,
        slot < applied_all(operations).0.len(),
        applied_all(operations).0[slot as int] is Vacant,
    ensures
        exists|i: int|
            0 <= i < operations.len() && #[trigger] operations[i] == Operation::<T>::Take(slot),
    decreases operations.len(),
{
    if operations.len() > 0 {
        let earlier = operations.drop_last();
        theorem_puts_and_takes_keep_well_formed(earlier);
        let before = applied_all(earlier);
        let vacant_before = slot < before.0.len() && before.0[slot as int] is Vacant;
        match operations.last() {
            Operation::Put(value) => {
                lemma_put_well_formed(before.0, before.1, value);
                if before.1.last_vacant != before.1.len_entries {
                    lemma_head_links(before.0, before.1);
                }
            },
            Operation::Take(at) => {
                if value_at(before.0, at).is_some() {
                    lemma_take_well_formed(before.0, before.1, at);
                    if before.1.last_vacant != before.1.len_entries {
                        lemma_head_links(before.0, before.1);
                    }
                }
            },
        }
        if vacant_before {
            theorem_vacant_slots_were_taken(earlier, slot);
            let i = choose|i: int|
                0 <= i < earlier.len() && #[trigger] earlier[i] == Operation::<T>::Take(slot);
        }
    }
}

} // verus!
