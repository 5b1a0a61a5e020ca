use lazy_storage::entry::{Entry, Header, VacantEntry};
use lazy_storage::key::Key;
use lazy_storage::stash::Stash;

/// The slots of `stash` from the first to the last.
fn slots(stash: &Stash<u32>) -> Vec<Entry<u32>> {
    let mut slots = Vec::new();
    let mut at = 0;
    while let Some(entry) = stash.raw_entry(at) {
        slots.push(match entry {
            Entry::Vacant(links) => Entry::Vacant(*links),
            Entry::Occupied(value) => Entry::Occupied(*value),
        });
        at += 1;
    }
    slots
}

/// The values of `stash` in the order of their slots.
fn values(stash: &Stash<u32>) -> Vec<u32> {
    let mut values = Vec::new();
    let mut iter = stash.iter();
    while let Some(value) = iter.next() {
        values.push(*value);
    }
    values
}

/// The slots that are met on the way round the ring, from the slot that the
/// header names until that slot is met again or a slot is not vacant.
fn ring(stash: &Stash<u32>) -> Vec<u32> {
    let mut ring = Vec::new();
    let Some(start) = stash.last_vacant_index() else {
        return ring;
    };
    let mut at = start;
    loop {
        ring.push(at);
        match stash.raw_entry(at) {
            Some(Entry::Vacant(links)) => at = links.next,
            other => panic!("slot {at} on the ring is {other:?}"),
        }
        if at == start || ring.len() > stash.len_entries() as usize {
            return ring;
        }
    }
}

fn vacant(next: u32, prev: u32) -> Entry<u32> {
    Entry::Vacant(VacantEntry { next, prev })
}

fn stash_of(values: &[u32]) -> Stash<u32> {
    let mut stash = Stash::new();
    for value in values {
        stash.put(*value);
    }
    stash
}

#[test]
fn new_stash_is_empty() {
    let stash = Stash::<u32>::new();
    assert_eq!(stash.len(), 0);
    assert!(stash.is_empty());
    assert_eq!(stash.len_entries(), 0);
    assert!(!stash.has_vacant_entries());
    assert_eq!(stash.last_vacant_index(), None);
    assert_eq!(stash.entries_key(), None);
    assert_eq!(stash.get(0), None);
    assert_eq!(*stash.raw_header(), Header { last_vacant: 0, len: 0, len_entries: 0 });
}

#[test]
fn put_take_scenario() {
    let mut stash = Stash::<u32>::new();
    assert_eq!(stash.put(10), 0);
    assert_eq!(stash.put(20), 1);
    assert_eq!(stash.put(30), 2);
    assert_eq!(stash.take(1), Some(20));
    assert_eq!(stash.len(), 2);
    assert_eq!(stash.last_vacant_index(), Some(1));
    assert_eq!(*stash.raw_header(), Header { last_vacant: 1, len: 2, len_entries: 3 });
    assert_eq!(stash.put(40), 1);
    assert_eq!(stash.len(), 3);
    assert_eq!(stash.get(1), Some(&40));
    assert_eq!(*stash.raw_header(), Header { last_vacant: 3, len: 3, len_entries: 3 });
}

#[test]
fn put_appends_while_no_slot_is_vacant() {
    let mut stash = Stash::<u32>::new();
    for index in 0..5 {
        assert_eq!(stash.put(100 + index), index);
        assert_eq!(stash.len(), index + 1);
        assert_eq!(stash.len_entries(), index + 1);
        assert_eq!(stash.last_vacant_index(), None);
    }
    assert_eq!(values(&stash), vec![100, 101, 102, 103, 104]);
}

#[test]
fn put_then_take_returns_the_value() {
    let mut stash = stash_of(&[1, 2, 3, 4]);
    stash.take(0);
    stash.take(2);
    stash.take(1);
    let index = stash.put(77);
    assert_eq!(stash.take(index), Some(77));
    let mut fresh = Stash::<u32>::new();
    let index = fresh.put(5);
    assert_eq!(fresh.take(index), Some(5));
    assert_eq!(fresh.len(), 0);
}

#[test]
fn len_counts_the_occupied_slots() {
    let mut stash = Stash::<u32>::new();
    let mut held = 0;
    for round in 0..6u32 {
        for value in 0..4u32 {
            stash.put(round * 10 + value);
            held += 1;
        }
        if stash.take(round).is_some() {
            held -= 1;
        }
        if stash.take(round * 2 + 1).is_some() {
            held -= 1;
        }
        let occupied = slots(&stash).iter().filter(|entry| entry.is_occupied()).count();
        assert_eq!(stash.len() as usize, occupied);
        assert_eq!(stash.len(), held);
        assert_eq!(ring(&stash).len() as u32, stash.len_entries() - stash.len());
    }
}

#[test]
fn take_of_a_missing_or_vacant_slot_changes_nothing() {
    let mut stash = stash_of(&[10, 20, 30]);
    assert_eq!(stash.take(3), None);
    assert_eq!(stash.take(u32::MAX), None);
    assert_eq!(stash.take(1), Some(20));
    let before = slots(&stash);
    let header = *stash.raw_header();
    assert_eq!(stash.take(1), None);
    assert_eq!(stash.take(7), None);
    assert_eq!(slots(&stash), before);
    assert_eq!(*stash.raw_header(), header);
}

#[test]
fn take_reaches_slots_beyond_the_number_of_values() {
    let mut stash = stash_of(&[10, 20, 30, 40]);
    assert_eq!(stash.take(0), Some(10));
    assert_eq!(stash.take(1), Some(20));
    assert_eq!(stash.take(2), Some(30));
    assert_eq!(stash.len(), 1);
    assert_eq!(stash.take(3), Some(40));
    assert_eq!(stash.len(), 0);
    assert_eq!(stash.len_entries(), 4);
}

#[test]
fn first_vacated_slot_links_to_itself() {
    let mut stash = stash_of(&[10, 20, 30]);
    stash.take(1);
    assert_eq!(
        slots(&stash),
        vec![Entry::Occupied(10), vacant(1, 1), Entry::Occupied(30)]
    );
    assert_eq!(ring(&stash), vec![1]);
}

#[test]
fn vacated_slot_enters_the_ring_in_front_of_the_last_one() {
    let mut stash = stash_of(&[10, 20, 30, 40, 50]);
    stash.take(1);
    stash.take(3);
    assert_eq!(stash.last_vacant_index(), Some(3));
    assert_eq!(
        slots(&stash),
        vec![
            Entry::Occupied(10),
            vacant(3, 3),
            Entry::Occupied(30),
            vacant(1, 1),
            Entry::Occupied(50)
        ]
    );
    stash.take(0);
    assert_eq!(stash.last_vacant_index(), Some(0));
    assert_eq!(
        slots(&stash),
        vec![vacant(3, 1), vacant(0, 3), Entry::Occupied(30), vacant(1, 0), Entry::Occupied(50)]
    );
    assert_eq!(ring(&stash), vec![0, 3, 1]);
    stash.take(4);
    assert_eq!(
        slots(&stash),
        vec![vacant(3, 4), vacant(4, 3), Entry::Occupied(30), vacant(1, 0), vacant(0, 1)]
    );
    assert_eq!(ring(&stash), vec![4, 0, 3, 1]);
    assert_eq!(*stash.raw_header(), Header { last_vacant: 4, len: 1, len_entries: 5 });
}

#[test]
fn ring_is_closed_after_puts_and_takes() {
    let mut stash = Stash::<u32>::new();
    let mut seed = 12345u32;
    for step in 0..400u32 {
        seed = seed.wrapping_mul(1664525).wrapping_add(1013904223);
        if seed % 3 == 0 || stash.len_entries() == 0 {
            stash.put(step);
        } else {
            stash.take((seed >> 8) % stash.len_entries());
        }
        let walked = ring(&stash);
        assert_eq!(walked.len() as u32, stash.len_entries() - stash.len());
        let mut seen = walked.clone();
        seen.sort();
        seen.dedup();
        assert_eq!(seen.len(), walked.len());
        for (at, entry) in slots(&stash).iter().enumerate() {
            assert_eq!(entry.is_vacant(), seen.contains(&(at as u32)));
        }
        for (place, at) in walked.iter().enumerate() {
            let before = walked[(place + walked.len() - 1) % walked.len()];
            match stash.raw_entry(*at) {
                Some(Entry::Vacant(links)) => assert_eq!(links.prev, before),
                other => panic!("slot {at} on the ring is {other:?}"),
            }
        }
    }
}

#[test]
fn last_vacated_slot_is_filled_first() {
    let mut stash = stash_of(&[10, 20, 30, 40, 50]);
    assert_eq!(stash.take(3), Some(40));
    assert_eq!(stash.take(1), Some(20));
    assert_eq!(stash.put(60), 1);
    assert_eq!(stash.put(70), 3);
    assert_eq!(stash.put(80), 5);
    assert_eq!(values(&stash), vec![10, 60, 30, 70, 50, 80]);
}

#[test]
fn ring_starts_at_the_lower_neighbour_after_a_put() {
    let mut stash = stash_of(&[10, 20, 30, 40, 50, 60]);
    stash.take(4);
    stash.take(1);
    stash.take(5);
    stash.take(2);
    assert_eq!(ring(&stash), vec![2, 5, 1, 4]);
    assert_eq!(stash.put(70), 2);
    assert_eq!(stash.last_vacant_index(), Some(4));
    assert_eq!(ring(&stash), vec![4, 5, 1]);
    assert_eq!(stash.put(80), 4);
    assert_eq!(stash.last_vacant_index(), Some(1));
    assert_eq!(ring(&stash), vec![1, 5]);
    assert_eq!(
        slots(&stash),
        vec![
            Entry::Occupied(10),
            vacant(5, 5),
            Entry::Occupied(70),
            Entry::Occupied(40),
            Entry::Occupied(80),
            vacant(1, 1)
        ]
    );
    assert_eq!(stash.put(90), 1);
    assert_eq!(stash.last_vacant_index(), Some(5));
    assert_eq!(stash.put(100), 5);
    assert_eq!(stash.last_vacant_index(), None);
    assert_eq!(*stash.raw_header(), Header { last_vacant: 6, len: 6, len_entries: 6 });
    assert_eq!(stash.put(110), 6);
}

#[test]
fn get_sees_occupied_slots_only() {
    let mut stash = stash_of(&[10, 20, 30]);
    stash.take(1);
    assert_eq!(stash.get(0), Some(&10));
    assert_eq!(stash.get(1), None);
    assert_eq!(stash.get(2), Some(&30));
    assert_eq!(stash.get(3), None);
    assert_eq!(stash.get(u32::MAX), None);
}

#[test]
fn get_mut_changes_a_value_in_place() {
    let mut stash = stash_of(&[10, 20, 30]);
    stash.take(1);
    *stash.get_mut(2).unwrap() += 5;
    assert!(stash.get_mut(1).is_none());
    assert!(stash.get_mut(3).is_none());
    assert_eq!(
        slots(&stash),
        vec![Entry::Occupied(10), vacant(1, 1), Entry::Occupied(35)]
    );
    assert_eq!(*stash.raw_header(), Header { last_vacant: 1, len: 2, len_entries: 3 });
}

#[test]
fn iter_skips_vacant_slots_from_both_ends() {
    let mut stash = stash_of(&[10, 20, 30, 40, 50, 60]);
    stash.take(0);
    stash.take(3);
    stash.take(5);
    let mut iter = stash.iter();
    assert_eq!(iter.next(), Some(&20));
    assert_eq!(iter.next_back(), Some(&50));
    assert_eq!(iter.next_back(), Some(&30));
    assert_eq!(iter.next(), None);
    assert_eq!(iter.next_back(), None);
    assert_eq!(values(&stash), vec![20, 30, 50]);
    assert_eq!(values(&Stash::new()), Vec::<u32>::new());
}

#[test]
fn iter_mut_changes_every_value() {
    let mut stash = stash_of(&[10, 20, 30, 40]);
    stash.take(2);
    let mut iter = stash.iter_mut();
    while let Some(value) = iter.next() {
        *value *= 2;
    }
    assert_eq!(
        slots(&stash),
        vec![Entry::Occupied(20), Entry::Occupied(40), vacant(2, 2), Entry::Occupied(80)]
    );
}

#[test]
fn defrag_moves_values_from_the_end_into_vacant_slots() {
    let mut stash = stash_of(&[10, 20, 30, 40, 50, 60]);
    stash.take(4);
    stash.take(1);
    stash.take(2);
    assert_eq!(ring(&stash), vec![2, 1, 4]);
    let mut moves = Vec::new();
    stash.defrag(None, |from, to, value: &u32| moves.push((from, to, *value)));
    assert_eq!(moves, vec![(5, 2, 60), (3, 1, 40)]);
    assert_eq!(
        slots(&stash),
        vec![Entry::Occupied(10), Entry::Occupied(40), Entry::Occupied(60)]
    );
    assert_eq!(*stash.raw_header(), Header { last_vacant: 3, len: 3, len_entries: 3 });
    assert_eq!(stash.put(70), 3);
}

#[test]
fn defrag_keeps_the_values_and_their_number() {
    let mut stash = Stash::<u32>::new();
    let mut seed = 99u32;
    for step in 0..200u32 {
        seed = seed.wrapping_mul(1664525).wrapping_add(1013904223);
        if seed % 2 == 0 || stash.len_entries() == 0 {
            stash.put(step % 17);
        } else {
            stash.take((seed >> 8) % stash.len_entries());
        }
        if step % 25 == 24 {
            let len = stash.len();
            let len_entries = stash.len_entries();
            let mut before = values(&stash);
            let kept = slots(&stash);
            let limit = if step % 50 == 24 { Some(3) } else { None };
            let mut calls = 0;
            stash.defrag(limit, |_, _, _| calls += 1);
            let mut after = values(&stash);
            before.sort();
            after.sort();
            assert_eq!(before, after);
            assert_eq!(stash.len(), len);
            assert!(stash.len_entries() <= len_entries);
            let steps = match limit {
                Some(limit) => limit.min(len_entries - len),
                None => len_entries - len,
            };
            assert_eq!(stash.len_entries(), len_entries - steps);
            assert!(calls <= steps);
            if limit.is_none() {
                assert_eq!(stash.len_entries(), stash.len());
                assert!(!stash.has_vacant_entries());
            }
            for (at, entry) in slots(&stash).iter().enumerate() {
                if kept[at].is_occupied() {
                    assert_eq!(*entry, kept[at]);
                }
            }
            assert_eq!(ring(&stash).len() as u32, stash.len_entries() - stash.len());
        }
    }
}

#[test]
fn defrag_stops_after_the_given_number_of_steps() {
    let mut stash = stash_of(&[10, 20, 30, 40, 50]);
    stash.take(0);
    stash.take(4);
    stash.take(2);
    let mut moves = Vec::new();
    stash.defrag(Some(1), |from, to, value: &u32| moves.push((from, to, *value)));
    assert_eq!(moves, vec![]);
    assert_eq!(stash.len_entries(), 4);
    assert_eq!(ring(&stash), vec![0, 2]);
    stash.defrag(Some(0), |from, to, value: &u32| moves.push((from, to, *value)));
    assert_eq!(stash.len_entries(), 4);
    stash.defrag(Some(1), |from, to, value: &u32| moves.push((from, to, *value)));
    assert_eq!(moves, vec![(3, 0, 40)]);
    assert_eq!(
        slots(&stash),
        vec![Entry::Occupied(40), Entry::Occupied(20), vacant(2, 2)]
    );
    stash.defrag(Some(10), |from, to, value: &u32| moves.push((from, to, *value)));
    assert_eq!(moves, vec![(3, 0, 40)]);
    assert_eq!(slots(&stash), vec![Entry::Occupied(40), Entry::Occupied(20)]);
    assert_eq!(*stash.raw_header(), Header { last_vacant: 2, len: 2, len_entries: 2 });
}

#[test]
fn defrag_of_a_stash_without_values_drops_every_slot() {
    let mut stash = stash_of(&[10, 20, 30]);
    stash.take(1);
    stash.take(0);
    stash.take(2);
    let mut calls = 0;
    stash.defrag(None, |_, _, _| calls += 1);
    assert_eq!(calls, 0);
    assert_eq!(*stash.raw_header(), Header { last_vacant: 0, len: 0, len_entries: 0 });
    assert_eq!(stash.put(5), 0);
}

#[test]
fn defrag_without_vacant_slots_changes_nothing() {
    let mut stash = stash_of(&[10, 20, 30]);
    let mut calls = 0;
    stash.defrag(None, |_, _, _| calls += 1);
    assert_eq!(calls, 0);
    assert_eq!(values(&stash), vec![10, 20, 30]);
    assert_eq!(*stash.raw_header(), Header { last_vacant: 3, len: 3, len_entries: 3 });
}

#[test]
fn from_parts_takes_what_a_stash_gives() {
    let mut stash = stash_of(&[10, 20, 30, 40, 50]);
    stash.take(3);
    stash.take(0);
    stash.take(4);
    let key = Key::new([7; 32]);
    let copy = Stash::from_parts(Some(key), *stash.raw_header(), slots(&stash)).unwrap();
    assert_eq!(slots(&copy), slots(&stash));
    assert_eq!(*copy.raw_header(), *stash.raw_header());
    assert_eq!(copy.entries_key(), Some(&key));
    let mut copy = copy;
    assert_eq!(copy.put(1), 4);
    assert_eq!(copy.put(2), 0);
    assert_eq!(copy.put(3), 3);
    assert_eq!(copy.put(4), 5);
    let empty = Stash::<u32>::from_parts(None, Header { last_vacant: 0, len: 0, len_entries: 0 }, vec![]);
    assert_eq!(empty.unwrap().len(), 0);
}

#[test]
fn from_parts_refuses_what_is_not_a_stash() {
    let full = || vec![Entry::Occupied(1u32), Entry::Occupied(2)];
    let header = |last_vacant, len, len_entries| Header { last_vacant, len, len_entries };
    assert!(Stash::from_parts(None, header(2, 2, 2), full()).is_some());
    assert!(Stash::from_parts(None, header(0, 2, 2), full()).is_none());
    assert!(Stash::from_parts(None, header(2, 1, 2), full()).is_none());
    assert!(Stash::from_parts(None, header(3, 2, 3), full()).is_none());
    assert!(Stash::from_parts(None, header(2, 3, 2), full()).is_none());
    let holes = || vec![vacant(2, 2), Entry::Occupied(1), vacant(0, 0)];
    assert!(Stash::from_parts(None, header(0, 1, 3), holes()).is_some());
    assert!(Stash::from_parts(None, header(2, 1, 3), holes()).is_some());
    assert!(Stash::from_parts(None, header(1, 1, 3), holes()).is_none());
    assert!(Stash::from_parts(None, header(3, 1, 3), holes()).is_none());
    assert!(Stash::from_parts(None, header(0, 2, 3), holes()).is_none());
    let two_rings = vec![vacant(0, 0), Entry::Occupied(1), vacant(2, 2)];
    assert!(Stash::from_parts(None, header(0, 1, 3), two_rings).is_none());
    let wrong_prev = vec![vacant(2, 0), Entry::Occupied(1), vacant(0, 0)];
    assert!(Stash::from_parts(None, header(0, 1, 3), wrong_prev).is_none());
    let into_occupied = vec![vacant(1, 1), Entry::Occupied(1), vacant(0, 0)];
    assert!(Stash::from_parts(None, header(0, 1, 3), into_occupied).is_none());
    let out_of_range = vec![vacant(9, 9), Entry::Occupied(1)];
    assert!(Stash::from_parts(None, header(0, 1, 2), out_of_range).is_none());
    let left_out = vec![vacant(0, 0), vacant(1, 1), Entry::Occupied(1)];
    assert!(Stash::from_parts(None, header(0, 1, 3), left_out).is_none());
}

#[test]
fn entries_tell_occupied_from_vacant() {
    let occupied = Entry::Occupied(5u32);
    let mut empty = vacant(3, 4);
    assert!(occupied.is_occupied());
    assert!(!occupied.is_vacant());
    assert!(empty.is_vacant());
    assert!(!empty.is_occupied());
    assert_eq!(occupied.try_to_vacant(), None);
    assert_eq!(empty.try_to_vacant(), Some(VacantEntry { next: 3, prev: 4 }));
    empty.try_to_vacant_mut().unwrap().next = 9;
    assert_eq!(empty, vacant(9, 4));
    let mut occupied = occupied;
    assert!(occupied.try_to_vacant_mut().is_none());
}
