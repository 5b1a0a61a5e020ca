//! Counting the occupied slots and collecting their values.

use vstd::prelude::*;
use vstd::multiset::Multiset;
use crate::entry::{Entry, VacantEntry};

verus! {

/// The value of a slot as a multiset: one value for an occupied slot, none
/// for a vacant one.
pub open spec fn held<T>(entry: Entry<T>) -> Multiset<T> {
    match entry {
        Entry::Occupied(value) => Multiset::singleton(value),
        Entry::Vacant(_) => Multiset::empty(),
    }
}

/// The number of occupied slots among `entries`.
pub open spec fn occupied_count<T>(entries: Seq<Entry<T>>) -> nat
    decreases entries.len(),
{
    if entries.len() == 0 {
        0
    } else {
        occupied_count(entries.drop_last()) + if entries.last() is Occupied {
            1nat
        } else {
            0nat
        }
    }
}

/// The values in the occupied slots of `entries`, each as often as it occurs.
pub open spec fn values<T>(entries: Seq<Entry<T>>) -> Multiset<T>
    decreases entries.len(),
{
    if entries.len() == 0 {
        Multiset::empty()
    } else {
        values(entries.drop_last()).add(held(entries.last()))
    }
}

/// What changing one slot does to the number of occupied slots and to the
/// values held.
pub proof fn lemma_update_counts<T>(entries: Seq<Entry<T>>, at: int, entry: Entry<T>)
    requires
        0 <= at < entries.len(),
    ensures
        occupied_count(entries.update(at, entry)) + (if entries[at] is Occupied {
            1nat
        } else {
            0nat
        }) == occupied_count(entries) + (if entry is Occupied {
            1nat
        } else {
            0nat
        }),
        values(entries.update(at, entry)).add(held(entries[at])) == values(entries).add(
            held(entry),
        ),
    decreases entries.len(),
{
    let updated = entries.update(at, entry);
    if at == entries.len() - 1 {
        assert(updated.drop_last() =~= entries.drop_last());
    } else {
        assert(updated.drop_last() =~= entries.drop_last().update(at, entry));
        lemma_update_counts(entries.drop_last(), at, entry);
        let before = held(entries[at]);
        let last = held(entries.last());
        let rest = values(updated.drop_last());
        assert(rest.add(last).add(before) =~= rest.add(before).add(last));
    }
}

/// Changing the links of a vacant slot changes neither the number of occupied
/// slots nor the values held.
pub proof fn lemma_relink_counts<T>(entries: Seq<Entry<T>>, at: int, links: VacantEntry)
    requires
        0 <= at < entries.len(),
        entries[at] is Vacant,
    ensures
        occupied_count(entries.update(at, Entry::Vacant(links))) == occupied_count(entries),
        values(entries.update(at, Entry::Vacant(links))) == values(entries),
{
    lemma_update_counts(entries, at, Entry::Vacant(links));
    assert(values(entries.update(at, Entry::Vacant(links))) =~= values(
        entries.update(at, Entry::Vacant(links)),
    ).add(held(entries[at])));
}

/// Two multisets that become equal by adding the same to both are equal.
pub proof fn lemma_multiset_cancel<T>(left: Multiset<T>, right: Multiset<T>, added: Multiset<T>)
    requires
        left.add(added) == right.add(added),
    ensures
        left == right,
{
    assert forall|value: T| left.count(value) == right.count(value) by {
        let sum = left.add(added);
        assert(sum.count(value) == left.count(value) + added.count(value));
    }
}

/// As many values are held as slots are occupied.
pub proof fn lemma_values_len<T>(entries: Seq<Entry<T>>)
    ensures
        values(entries).len() == occupied_count(entries),
    decreases entries.len(),
{
    if entries.len() > 0 {
        lemma_values_len(entries.drop_last());
    }
}

/// No more slots are occupied than there are.
pub proof fn lemma_count_bound<T>(entries: Seq<Entry<T>>)
    ensures
        occupied_count(entries) <= entries.len(),
    decreases entries.len(),
{
    if entries.len() > 0 {
        lemma_count_bound(entries.drop_last());
    }
}

/// Where all slots are counted as occupied, none is vacant.
pub proof fn lemma_all_occupied<T>(entries: Seq<Entry<T>>)
    requires
        occupied_count(entries) == entries.len(),
    ensures
        forall|j: int| 0 <= j < entries.len() ==> (#[trigger] entries[j]) is Occupied,
    decreases entries.len(),
{
    if entries.len() > 0 {
        lemma_count_bound(entries.drop_last());
        lemma_all_occupied(entries.drop_last());
        assert forall|j: int| 0 <= j < entries.len() implies (#[trigger] entries[j]) is Occupied by {
            if j < entries.len() - 1 {
                assert(entries.drop_last()[j] == entries[j]);
            }
        }
    }
}

} // verus!
