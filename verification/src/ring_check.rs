//! Checking slots and a header that come from outside before a stash is
//! made of them.

use vstd::prelude::*;
use crate::counts::{lemma_all_occupied, occupied_count};
use crate::entry::{Entry, Header};
use crate::model::{header_fits, well_formed};
use crate::ring::{covered, is_ring, linked_at, ring_next};

verus! {

/// The number of occupied slots among `entries`.
fn count_occupied<T>(entries: &Vec<Entry<T>>) -> (count: usize)
    ensures
        count == occupied_count(entries@),
{
    let mut count: usize = 0;
    let mut index: usize = 0;
    while index < entries.len()
        invariant
            index <= entries@.len(),
            count == occupied_count(entries@.subrange(0, index as int)),
            count <= index,
        decreases entries@.len() - index,
    {
        proof {
            let grown = entries@.subrange(0, index + 1);
            assert(grown.drop_last() =~= entries@.subrange(0, index as int));
        }
        if entries[index].is_occupied() {
            count += 1;
        }
        index += 1;
    }
    assert(entries@.subrange(0, entries@.len() as int) =~= entries@);
    count
}

/// Whether `entries` and `header` are the slots and the header of a
/// well-formed stash. Counts the occupied slots, goes once round the ring of
/// vacant slots from the slot that the header names, and looks for vacant
/// slots that the ring leaves out.
pub fn is_well_formed<T>(header: &Header, entries: &Vec<Entry<T>>) -> (ok: bool)
    ensures
        ok == well_formed(entries@, *header),
{
    let ghost claimed = choose|free: Seq<u32>|
        is_ring(entries@, free) && #[trigger] header_fits(entries@, *header, free);
    let len_entries = header.len_entries;
    if entries.len() != len_entries as usize || header.len > len_entries {
        return false;
    }
    if count_occupied(entries) != header.len as usize {
        return false;
    }
    let vacant = len_entries - header.len;
    if vacant == 0 {
        proof {
            lemma_all_occupied(entries@);
            if header.last_vacant == len_entries {
                assert(header_fits(entries@, *header, Seq::<u32>::empty()));
            }
        }
        return header.last_vacant == len_entries;
    }
    if header.last_vacant >= len_entries {
        proof {
            if well_formed(entries@, *header) {
                assert(linked_at(entries@, claimed, 0));
            }
        }
        return false;
    }
    let mut visited: Vec<bool> = Vec::new();
    while visited.len() < entries.len()
        invariant
            visited@.len() <= entries@.len(),
            forall|j: int| 0 <= j < visited@.len() ==> !visited@[j],
        decreases entries@.len() - visited@.len(),
    {
        visited.push(false);
    }
    let ghost mut free: Seq<u32> = Seq::empty();
    let mut cur = header.last_vacant;
    let mut steps: u32 = 0;
    while steps < vacant
        invariant
            entries@.len() == len_entries,
            visited@.len() == len_entries,
            len_entries == header.len_entries,
            vacant == len_entries - header.len,
            vacant > 0,
            steps <= vacant,
            cur < len_entries,
            free.len() == steps,
            free.no_duplicates(),
            steps == 0 ==> cur == header.last_vacant,
            steps > 0 ==> free[0] == header.last_vacant && entries@[free[steps - 1] as int]->Vacant_0.next
                == cur && entries@[cur as int] is Vacant && entries@[cur as int]->Vacant_0.prev
                == free[steps - 1],
            forall|i: int|
                #![trigger free[i]]
                0 <= i < steps ==> free[i] < len_entries && entries@[free[i] as int] is Vacant,
            forall|i: int|
                #![trigger free[i]]
                0 < i < steps ==> entries@[free[i - 1] as int]->Vacant_0.next == free[i]
                    && entries@[free[i] as int]->Vacant_0.prev == free[i - 1],
            forall|j: int|
                0 <= j < len_entries ==> (#[trigger] visited@[j] <==> exists|i: int|
                    0 <= i < steps && #[trigger] free[i] == j),
            well_formed(entries@, *header) ==> {
                &&& is_ring(entries@, claimed)
                &&& header_fits(entries@, *header, claimed)
                &&& free =~= claimed.subrange(0, steps as int)
                &&& cur == claimed[ring_next(steps - 1, vacant as int)]
            },
        decreases vacant - steps,
    {
        proof {
            if well_formed(entries@, *header) {
                assert(linked_at(entries@, claimed, steps as int));
                assert(linked_at(entries@, claimed, ring_next(steps as int, vacant as int)));
                assert forall|i: int| 0 <= i < steps implies claimed[i] != claimed[steps as int] by {}
            }
        }
        let links = match entries[cur as usize].try_to_vacant() {
            Some(links) => links,
            None => {
                return false;
            },
        };
        if visited[cur as usize] || links.next >= len_entries {
            return false;
        }
        match entries[links.next as usize].try_to_vacant() {
            Some(after) => {
                if after.prev != cur {
                    return false;
                }
            },
            None => {
                return false;
            },
        }
        visited[cur as usize] = true;
        proof {
            let ghost before = free;
            free = free.push(cur);
            assert forall|j: int| 0 <= j < len_entries implies (#[trigger] visited@[j] <==> exists|
                i: int,
            |
                0 <= i < steps + 1 && #[trigger] free[i] == j) by {
                if j == cur {
                    assert(free[steps as int] == j);
                } else {
                    if visited@[j] {
                        let i = choose|i: int| 0 <= i < steps && #[trigger] before[i] == j;
                        assert(free[i] == j);
                    }
                }
            }
        }
        cur = links.next;
        steps += 1;
    }
    if cur != header.last_vacant {
        return false;
    }
    let mut index: usize = 0;
    while index < entries.len()
        invariant
            index <= entries@.len(),
            entries@.len() == len_entries,
            visited@.len() == len_entries,
            forall|j: int| 0 <= j < index ==> #[trigger] covered(entries@, free, j),
            forall|j: int|
                0 <= j < len_entries ==> (#[trigger] visited@[j] <==> exists|i: int|
                    0 <= i < free.len() && #[trigger] free[i] == j),
            well_formed(entries@, *header) ==> is_ring(entries@, claimed) && free =~= claimed,
        decreases entries@.len() - index,
    {
        if entries[index].is_vacant() && !visited[index] {
            proof {
                if well_formed(entries@, *header) {
                    assert(covered(entries@, claimed, index as int));
                }
            }
            return false;
        }
        index += 1;
    }
    assert(header_fits(entries@, *header, free));
    true
}

} // verus!
