//! The ring of vacant slots: what it is, and how a slot leaves it.

use vstd::prelude::*;
use crate::counts::{held, lemma_relink_counts, lemma_update_counts, occupied_count, values};
use crate::entry::{Entry, VacantEntry};

verus! {

/// The position after `i` on a ring of `n` positions.
pub open spec fn ring_next(i: int, n: int) -> int {
    if i + 1 >= n {
        0
    } else {
        i + 1
    }
}

/// The position before `i` on a ring of `n` positions.
pub open spec fn ring_prev(i: int, n: int) -> int {
    if i <= 0 {
        n - 1
    } else {
        i - 1
    }
}

/// The links that the slot at position `i` of the ring `free` holds.
pub open spec fn links_at(free: Seq<u32>, i: int) -> VacantEntry {
    VacantEntry {
        next: free[ring_next(i, free.len() as int)],
        prev: free[ring_prev(i, free.len() as int)],
    }
}

/// The slot at position `i` of the ring `free` is a vacant slot of `entries`
/// that is linked to its neighbours on the ring.
pub open spec fn linked_at<T>(entries: Seq<Entry<T>>, free: Seq<u32>, i: int) -> bool {
    free[i] < entries.len() && entries[free[i] as int] == Entry::<T>::Vacant(links_at(free, i))
}

/// The slot `j` of `entries` is occupied or among `free`.
pub open spec fn covered<T>(entries: Seq<Entry<T>>, free: Seq<u32>, j: int) -> bool {
    entries[j] is Vacant ==> exists|i: int| 0 <= i < free.len() && #[trigger] free[i] == j
}

/// `free` names every vacant slot of `entries` once, and the links of each
/// lead to the slots that `free` names after and before it, the last one
/// being followed by the first.
pub open spec fn is_ring<T>(entries: Seq<Entry<T>>, free: Seq<u32>) -> bool {
    &&& free.no_duplicates()
    &&& forall|i: int| 0 <= i < free.len() ==> #[trigger] linked_at(entries, free, i)
    &&& forall|j: int| 0 <= j < entries.len() ==> #[trigger] covered(entries, free, j)
}

/// `free` read from position `k` on, round the ring.
pub open spec fn rotated(free: Seq<u32>, k: int) -> Seq<u32> {
    Seq::new(
        free.len(),
        |i: int|
            if i + k < free.len() {
                free[i + k]
            } else {
                free[i + k - free.len()]
            },
    )
}

/// A ring may be read from any of its positions on.
pub proof fn lemma_ring_rotate<T>(entries: Seq<Entry<T>>, free: Seq<u32>, k: int)
    requires
        is_ring(entries, free),
        0 <= k < free.len(),
    ensures
        is_ring(entries, rotated(free, k)),
        rotated(free, k).len() == free.len(),
        rotated(free, k)[0] == free[k],
{
    let n = free.len() as int;
    let turned = rotated(free, k);
    assert forall|i: int| 0 <= i < turned.len() implies #[trigger] linked_at(entries, turned, i) by {
        let at = if i + k < n { i + k } else { i + k - n };
        assert(linked_at(entries, free, at));
    }
    assert forall|j: int| 0 <= j < entries.len() implies #[trigger] covered(entries, turned, j) by {
        assert(covered(entries, free, j));
        if entries[j] is Vacant {
            let at = choose|at: int| 0 <= at < free.len() && free[at] == j;
            let i = if at >= k { at - k } else { at - k + n };
            assert(turned[i] == j);
        }
    }
}

/// An occupied slot at the end may be dropped from under a ring.
pub proof fn lemma_ring_drop_last<T>(entries: Seq<Entry<T>>, free: Seq<u32>)
    requires
        is_ring(entries, free),
        entries.len() > 0,
        entries.last() is Occupied,
    ensures
        is_ring(entries.drop_last(), free),
{
    let rest = entries.drop_last();
    assert forall|i: int| 0 <= i < free.len() implies #[trigger] linked_at(rest, free, i) by {
        assert(linked_at(entries, free, i));
    }
    assert forall|j: int| 0 <= j < rest.len() implies #[trigger] covered(rest, free, j) by {
        assert(covered(entries, free, j));
    }
}

/// No slot on a ring is occupied.
pub proof fn lemma_ring_avoids_occupied<T>(entries: Seq<Entry<T>>, free: Seq<u32>, at: int)
    requires
        is_ring(entries, free),
        0 <= at < entries.len(),
        entries[at] is Occupied,
    ensures
        forall|i: int| 0 <= i < free.len() ==> #[trigger] free[i] != at,
{
    assert forall|i: int| 0 <= i < free.len() implies #[trigger] free[i] != at by {
        assert(linked_at(entries, free, i));
    }
}

/// `entries` with the `next` link of the vacant slot `at` set.
pub open spec fn with_next<T>(entries: Seq<Entry<T>>, at: u32, next: u32) -> Seq<Entry<T>> {
    entries.update(
        at as int,
        Entry::Vacant(VacantEntry { next, prev: entries[at as int]->Vacant_0.prev }),
    )
}

/// `entries` with the `prev` link of the vacant slot `at` set.
pub open spec fn with_prev<T>(entries: Seq<Entry<T>>, at: u32, prev: u32) -> Seq<Entry<T>> {
    entries.update(
        at as int,
        Entry::Vacant(VacantEntry { next: entries[at as int]->Vacant_0.next, prev }),
    )
}

/// Whether a slot with these links is the only one on its ring.
pub open spec fn is_alone(slot: u32, links: VacantEntry) -> bool {
    links.prev == slot && links.next == slot
}

/// `entries` after the slot `removed`, which held `links`, has left the
/// ring: its two neighbours are linked to each other.
pub open spec fn unlinked<T>(entries: Seq<Entry<T>>, removed: u32, links: VacantEntry) -> Seq<
    Entry<T>,
> {
    if is_alone(removed, links) {
        entries
    } else {
        with_prev(with_next(entries, links.prev, links.next), links.next, links.prev)
    }
}

/// Where the ring starts after the slot `removed`, which held `links`, has
/// left it: at the lower of its two neighbours, or, if it was alone, nowhere,
/// which `len_entries` stands for.
pub open spec fn head_after_unlink(removed: u32, links: VacantEntry, len_entries: u32) -> u32 {
    if is_alone(removed, links) {
        len_entries
    } else if links.prev <= links.next {
        links.prev
    } else {
        links.next
    }
}

/// Filling the slot at the start of the ring takes it off the ring, which
/// then starts at the lower of its two neighbours.
pub proof fn lemma_ring_unlink<T>(entries: Seq<Entry<T>>, free: Seq<u32>, filled: Entry<T>) -> (rest:
    Seq<u32>)
    requires
        is_ring(entries, free),
        free.len() > 0,
        filled is Occupied,
    ensures
        rest.len() == free.len() - 1,
        is_ring(
            unlinked(entries.update(free[0] as int, filled), free[0], links_at(free, 0)),
            rest,
        ),
        rest.len() > 0 ==> rest[0] == head_after_unlink(free[0], links_at(free, 0), 0),
        is_alone(free[0], links_at(free, 0)) <==> free.len() == 1,
        unlinked(entries.update(free[0] as int, filled), free[0], links_at(free, 0)).len()
            == entries.len(),
        occupied_count(
            unlinked(entries.update(free[0] as int, filled), free[0], links_at(free, 0)),
        ) == occupied_count(entries) + 1,
        values(unlinked(entries.update(free[0] as int, filled), free[0], links_at(free, 0)))
            == values(entries).add(held(filled)),
{
    let n = free.len() as int;
    let removed = free[0];
    let links = links_at(free, 0);
    let refilled = entries.update(removed as int, filled);
    let after = unlinked(refilled, removed, links);
    assert(linked_at(entries, free, 0));
    lemma_update_counts(entries, removed as int, filled);
    if n == 1 {
        let rest = Seq::<u32>::empty();
        assert forall|j: int| 0 <= j < after.len() implies #[trigger] covered(after, rest, j) by {
            assert(covered(entries, free, j));
            if after[j] is Vacant {
                let k = choose|k: int| 0 <= k < free.len() && free[k] == j;
            }
        }
        rest
    } else {
        let next = links.next;
        let prev = links.prev;
        assert(linked_at(entries, free, 1));
        assert(linked_at(entries, free, n - 1));
        let step = with_next(refilled, prev, next);
        lemma_relink_counts(refilled, prev as int, VacantEntry { next, prev: refilled[prev as int]->Vacant_0.prev });
        lemma_relink_counts(step, next as int, VacantEntry { next: step[next as int]->Vacant_0.next, prev });
        let tail = Seq::new((n - 1) as nat, |i: int| free[i + 1]);
        assert forall|i: int| 0 <= i < tail.len() implies #[trigger] linked_at(after, tail, i) by {
            assert(linked_at(entries, free, i + 1));
        }
        assert forall|j: int| 0 <= j < after.len() implies #[trigger] covered(after, tail, j) by {
            assert(covered(entries, free, j));
            if after[j] is Vacant {
                let k = choose|k: int| 0 <= k < free.len() && free[k] == j;
                assert(tail[k - 1] == j);
            }
        }
        if prev < next {
            lemma_ring_rotate(after, tail, n - 2);
            rotated(tail, n - 2)
        } else {
            tail
        }
    }
}

} // verus!
