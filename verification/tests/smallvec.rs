use lazy_storage::smallvec::SmallVec;

fn vec_of(values: &[char]) -> SmallVec<char, 4> {
    let mut vec = SmallVec::new();
    for value in values {
        vec.push(*value);
    }
    vec
}

fn elements(vec: &SmallVec<char, 4>) -> Vec<char> {
    let mut elements = Vec::new();
    let mut iter = vec.iter();
    while let Some(element) = iter.next() {
        elements.push(*element);
    }
    elements
}

#[test]
fn new_array_is_empty() {
    let vec = SmallVec::<char, 4>::new();
    assert_eq!(vec.len(), 0);
    assert!(vec.is_empty());
    assert_eq!(SmallVec::<char, 4>::capacity(), 4);
    assert_eq!(SmallVec::<u8, 0>::capacity(), 0);
    assert_eq!(vec.first(), None);
    assert_eq!(vec.last(), None);
    assert_eq!(vec.get(0), None);
    assert_eq!(elements(&vec), vec![]);
}

#[test]
fn push_appends_up_to_the_capacity() {
    let mut vec = SmallVec::<char, 4>::new();
    for (index, value) in ['a', 'b', 'c', 'd'].into_iter().enumerate() {
        assert!(vec.len() < SmallVec::<char, 4>::capacity());
        vec.push(value);
        assert_eq!(vec.len() as usize, index + 1);
        assert_eq!(vec.last(), Some(&value));
        assert!(vec.len() <= SmallVec::<char, 4>::capacity());
    }
    assert_eq!(vec.len(), SmallVec::<char, 4>::capacity());
    assert_eq!(elements(&vec), vec!['a', 'b', 'c', 'd']);
    assert_eq!(vec.first(), Some(&'a'));
}

#[test]
fn pop_removes_the_last_element() {
    let mut vec = vec_of(&['a', 'b', 'c']);
    assert_eq!(vec.pop(), Some('c'));
    assert_eq!(elements(&vec), vec!['a', 'b']);
    assert_eq!(vec.pop(), Some('b'));
    assert_eq!(vec.pop(), Some('a'));
    assert_eq!(vec.len(), 0);
}

#[test]
fn pop_of_an_empty_array_changes_nothing() {
    let mut vec = SmallVec::<char, 4>::new();
    assert_eq!(vec.pop(), None);
    assert_eq!(vec.len(), 0);
    vec.pop_drop();
    assert_eq!(vec.len(), 0);
    vec.push('x');
    assert_eq!(elements(&vec), vec!['x']);
}

#[test]
fn pop_drop_removes_the_last_element() {
    let mut vec = vec_of(&['a', 'b', 'c']);
    vec.pop_drop();
    assert_eq!(elements(&vec), vec!['a', 'b']);
    vec.push('z');
    assert_eq!(elements(&vec), vec!['a', 'b', 'z']);
}

#[test]
fn get_is_bounded_by_the_length() {
    let mut vec = vec_of(&['a', 'b', 'c']);
    assert_eq!(vec.get(0), Some(&'a'));
    assert_eq!(vec.get(2), Some(&'c'));
    assert_eq!(vec.get(3), None);
    assert_eq!(vec.get(4), None);
    assert_eq!(vec.get(u32::MAX), None);
    assert_eq!(vec.within_bounds(2), Some(2));
    assert_eq!(vec.within_bounds(3), None);
    vec.pop();
    assert_eq!(vec.get(2), None);
    assert!(vec.get_mut(2).is_none());
}

#[test]
fn elements_change_in_place() {
    let mut vec = vec_of(&['a', 'b', 'c']);
    *vec.first_mut().unwrap() = 'x';
    *vec.last_mut().unwrap() = 'z';
    *vec.get_mut(1).unwrap() = 'y';
    assert_eq!(elements(&vec), vec!['x', 'y', 'z']);
    let mut empty = SmallVec::<char, 4>::new();
    assert!(empty.first_mut().is_none());
    assert!(empty.last_mut().is_none());
}

#[test]
fn swap_exchanges_two_elements() {
    let mut vec = vec_of(&['a', 'b', 'c', 'd']);
    vec.swap(0, 3);
    assert_eq!(elements(&vec), vec!['d', 'b', 'c', 'a']);
    vec.swap(1, 1);
    assert_eq!(elements(&vec), vec!['d', 'b', 'c', 'a']);
}

#[test]
fn swap_remove_puts_the_last_element_into_the_gap() {
    let mut vec = vec_of(&['a', 'b', 'c', 'd']);
    assert_eq!(vec.swap_remove(1), Some('b'));
    assert_eq!(elements(&vec), vec!['a', 'd', 'c']);
    assert_eq!(vec.swap_remove(2), Some('c'));
    assert_eq!(elements(&vec), vec!['a', 'd']);
    assert_eq!(vec.swap_remove(2), None);
    assert_eq!(vec.swap_remove(9), None);
    assert_eq!(elements(&vec), vec!['a', 'd']);
    assert_eq!(vec.swap_remove(0), Some('a'));
    assert_eq!(vec.swap_remove(0), Some('d'));
    assert_eq!(vec.swap_remove(0), None);
    assert_eq!(vec.len(), 0);
}

#[test]
fn swap_remove_drop_puts_the_last_element_into_the_gap() {
    let mut vec = vec_of(&['a', 'b', 'c', 'd']);
    assert_eq!(vec.swap_remove_drop(1), Some(()));
    assert_eq!(elements(&vec), vec!['a', 'd', 'c']);
    assert_eq!(vec.swap_remove_drop(2), Some(()));
    assert_eq!(elements(&vec), vec!['a', 'd']);
    assert_eq!(vec.swap_remove_drop(2), None);
    assert_eq!(elements(&vec), vec!['a', 'd']);
    assert_eq!(vec.swap_remove_drop(0), Some(()));
    assert_eq!(vec.swap_remove_drop(0), Some(()));
    assert_eq!(vec.swap_remove_drop(0), None);
    assert_eq!(vec.len(), 0);
}

#[test]
fn length_stays_within_the_capacity() {
    let mut vec = SmallVec::<u32, 3>::new();
    let mut seed = 7u32;
    for step in 0..300u32 {
        seed = seed.wrapping_mul(1664525).wrapping_add(1013904223);
        match (seed >> 4) % 5 {
            0 | 1 => {
                if vec.len() < SmallVec::<u32, 3>::capacity() {
                    vec.push(step);
                }
            }
            2 => {
                vec.pop();
            }
            3 => {
                vec.swap_remove((seed >> 12) % 4);
            }
            _ => {
                vec.swap_remove_drop((seed >> 12) % 4);
            }
        }
        assert!(vec.len() <= SmallVec::<u32, 3>::capacity());
        assert_eq!(vec.get(vec.len()), None);
        for index in 0..vec.len() {
            assert!(vec.get(index).is_some());
        }
    }
}

#[test]
fn elements_removed_earlier_do_not_come_back() {
    let mut vec = vec_of(&['a', 'b', 'c', 'd']);
    vec.pop_drop();
    vec.pop();
    assert_eq!(vec.get(2), None);
    assert_eq!(vec.get(3), None);
    vec.push('x');
    assert_eq!(vec.get(3), None);
    assert_eq!(elements(&vec), vec!['a', 'b', 'x']);
}

#[test]
fn iter_goes_from_both_ends() {
    let vec = vec_of(&['a', 'b', 'c', 'd']);
    let mut iter = vec.iter();
    assert_eq!(iter.size_hint(), (4, Some(4)));
    assert_eq!(iter.next(), Some(&'a'));
    assert_eq!(iter.next_back(), Some(&'d'));
    assert_eq!(iter.size_hint(), (2, Some(2)));
    assert_eq!(iter.next_back(), Some(&'c'));
    assert_eq!(iter.next(), Some(&'b'));
    assert_eq!(iter.next(), None);
    assert_eq!(iter.next_back(), None);
    assert_eq!(iter.size_hint(), (0, Some(0)));
}

#[test]
fn from_elements_checks_the_capacity() {
    let vec = SmallVec::<char, 4>::from_elements(vec!['a', 'b', 'c']).unwrap();
    assert_eq!(elements(&vec), vec!['a', 'b', 'c']);
    let full = SmallVec::<char, 4>::from_elements(vec!['a', 'b', 'c', 'd']).unwrap();
    assert_eq!(full.len(), 4);
    assert!(SmallVec::<char, 4>::from_elements(vec!['a', 'b', 'c', 'd', 'e']).is_none());
    assert!(SmallVec::<char, 0>::from_elements(vec![]).is_some());
}

#[test]
fn try_push_refuses_what_does_not_fit() {
    let mut vec = vec_of(&['a', 'b', 'c']);
    assert_eq!(vec.try_push('d'), Ok(()));
    assert_eq!(vec.try_push('e'), Err('e'));
    assert_eq!(vec.len(), 4);
    assert_eq!(elements(&vec), vec!['a', 'b', 'c', 'd']);
    let mut none = SmallVec::<char, 0>::new();
    assert_eq!(none.try_push('x'), Err('x'));
    assert_eq!(none.len(), 0);
    assert_eq!(none.pop(), None);
}
