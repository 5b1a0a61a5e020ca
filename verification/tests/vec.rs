use lazy_storage::vec::StorageVec;

fn elements(vec: &StorageVec<u32>) -> Vec<u32> {
    let mut elements = Vec::new();
    let mut iter = vec.iter();
    while let Some(element) = iter.next() {
        elements.push(*element);
    }
    elements
}

#[test]
fn storage_vec_grows_at_its_end() {
    let mut vec = StorageVec::<u32>::new();
    assert_eq!(vec.len(), 0);
    assert_eq!(vec.get(0), None);
    vec.push(5);
    vec.push(6);
    vec.push(7);
    assert_eq!(vec.len(), 3);
    assert_eq!(vec.get(0), Some(&5));
    assert_eq!(vec.get(2), Some(&7));
    assert_eq!(vec.get(3), None);
    assert_eq!(elements(&vec), vec![5, 6, 7]);
}

#[test]
fn storage_vec_index_gives_the_element() {
    let mut vec = StorageVec::from_iter(vec![5u32, 6, 7]);
    assert_eq!(vec[1], 6);
    assert_eq!(vec[0] + vec[2], 12);
    *vec.index_mut(1) = 60;
    *vec.get_mut(2).unwrap() = 70;
    assert!(vec.get_mut(3).is_none());
    assert_eq!(elements(&vec), vec![5, 60, 70]);
}

#[test]
fn storage_vec_extend_appends_in_order() {
    let mut vec = StorageVec::from_iter(vec![1u32, 2]);
    vec.extend(vec![3, 4, 5]);
    vec.extend(vec![]);
    assert_eq!(elements(&vec), vec![1, 2, 3, 4, 5]);
    assert_eq!(elements(&StorageVec::from_iter(vec![])), vec![]);
}

#[test]
fn storage_vec_eq_compares_length_and_elements() {
    let vec = StorageVec::from_iter(vec![1u32, 2, 3]);
    assert!(vec.eq(&StorageVec::from_iter(vec![1, 2, 3])));
    assert!(!vec.eq(&StorageVec::from_iter(vec![1, 2])));
    assert!(!vec.eq(&StorageVec::from_iter(vec![1, 2, 4])));
    assert!(!vec.eq(&StorageVec::from_iter(vec![0, 2, 3])));
    assert!(!vec.eq(&StorageVec::from_iter(vec![1, 2, 3, 4])));
    assert!(StorageVec::<u32>::new().eq(&StorageVec::new()));
}

#[test]
fn storage_vec_iter_goes_from_both_ends() {
    let vec = StorageVec::from_iter(vec![1u32, 2, 3]);
    let mut iter = vec.iter();
    assert_eq!(iter.size_hint(), (3, Some(3)));
    assert_eq!(iter.next_back(), Some(&3));
    assert_eq!(iter.next(), Some(&1));
    assert_eq!(iter.size_hint(), (1, Some(1)));
    assert_eq!(iter.next(), Some(&2));
    assert_eq!(iter.next(), None);
    assert_eq!(iter.next_back(), None);
}

#[test]
fn storage_vec_iter_mut_changes_every_element() {
    let mut vec = StorageVec::from_iter(vec![1u32, 2, 3]);
    let mut iter = vec.iter_mut();
    while let Some(element) = iter.next() {
        *element += 10;
    }
    assert_eq!(elements(&vec), vec![11, 12, 13]);
}
