use lazy_storage::codec::{
    decode_entry, decode_header, decode_links, encode_entry, encode_header, encode_links,
    DecodeError,
};
use lazy_storage::entry::{Entry, Header, VacantEntry};
use parity_scale_codec::Encode;

#[test]
fn header_is_twelve_bytes() {
    let header = Header { last_vacant: 1, len: 0x0203, len_entries: 0x0405_0607 };
    assert_eq!(encode_header(&header), vec![1, 0, 0, 0, 3, 2, 0, 0, 7, 6, 5, 4]);
    assert_eq!(
        encode_header(&Header { last_vacant: u32::MAX, len: 0, len_entries: u32::MAX }),
        vec![255, 255, 255, 255, 0, 0, 0, 0, 255, 255, 255, 255]
    );
}

#[test]
fn header_bytes_are_those_of_its_fields_in_a_row() {
    let header = Header { last_vacant: 0xdead_beef, len: 77, len_entries: 0x0100_0000 };
    let fields = (header.last_vacant, header.len, header.len_entries);
    assert_eq!(encode_header(&header), fields.encode());
}

#[test]
fn header_comes_back_from_its_bytes() {
    for header in [
        Header { last_vacant: 0, len: 0, len_entries: 0 },
        Header { last_vacant: 3, len: 2, len_entries: 5 },
        Header { last_vacant: u32::MAX, len: u32::MAX - 1, len_entries: 0x8000_0000 },
    ] {
        let mut bytes = encode_header(&header);
        assert_eq!(decode_header(&bytes), Ok(header));
        bytes.push(9);
        assert_eq!(decode_header(&bytes), Ok(header));
    }
}

#[test]
fn header_needs_twelve_bytes() {
    assert_eq!(decode_header(&[]), Err(DecodeError::NotEnoughData));
    assert_eq!(decode_header(&[0; 11]), Err(DecodeError::NotEnoughData));
    assert_eq!(
        decode_header(&[0; 12]),
        Ok(Header { last_vacant: 0, len: 0, len_entries: 0 })
    );
}

#[test]
fn links_are_next_then_prev() {
    let links = VacantEntry { next: 0x0a0b, prev: 2 };
    assert_eq!(encode_links(&links), vec![0x0b, 0x0a, 0, 0, 2, 0, 0, 0]);
    assert_eq!(encode_links(&links), (links.next, links.prev).encode());
    assert_eq!(decode_links(&encode_links(&links)), Ok(links));
    assert_eq!(decode_links(&[1, 0, 0, 0, 2, 0, 0, 0, 99]), Ok(VacantEntry { next: 1, prev: 2 }));
    assert_eq!(decode_links(&[0; 7]), Err(DecodeError::NotEnoughData));
}

#[test]
fn vacant_slot_starts_with_zero() {
    let entry = Entry::Vacant(VacantEntry { next: 5, prev: 0x0100 });
    assert_eq!(encode_entry(&entry), vec![0, 5, 0, 0, 0, 0, 1, 0, 0]);
    assert_eq!(decode_entry(&encode_entry(&entry)), Ok(entry));
}

#[test]
fn occupied_slot_starts_with_one() {
    let entry = Entry::Occupied(0x0102_0304u32.encode());
    assert_eq!(encode_entry(&entry), vec![1, 4, 3, 2, 1]);
    assert_eq!(decode_entry(&[1, 4, 3, 2, 1]), Ok(entry));
    assert_eq!(encode_entry(&Entry::Occupied(vec![])), vec![1]);
    assert_eq!(decode_entry(&[1]), Ok(Entry::Occupied(vec![])));
}

#[test]
fn slot_bytes_are_those_of_a_tagged_value() {
    let value = (7u32, true, 9u64);
    let as_result: Result<(), (u32, bool, u64)> = Err(value);
    assert_eq!(encode_entry(&Entry::Occupied(value.encode())), as_result.encode());
    let links = VacantEntry { next: 3, prev: 4 };
    let as_result: Result<(u32, u32), ()> = Ok((links.next, links.prev));
    assert_eq!(encode_entry(&Entry::Vacant(links)), as_result.encode());
}

#[test]
fn slot_with_a_wrong_start_is_refused() {
    assert_eq!(decode_entry(&[]), Err(DecodeError::NotEnoughData));
    assert_eq!(decode_entry(&[2]), Err(DecodeError::UnknownVariant));
    assert_eq!(decode_entry(&[255, 0, 0, 0, 0, 0, 0, 0, 0]), Err(DecodeError::UnknownVariant));
    assert_eq!(decode_entry(&[0]), Err(DecodeError::NotEnoughData));
    assert_eq!(decode_entry(&[0, 1, 0, 0, 0, 2, 0, 0]), Err(DecodeError::NotEnoughData));
    assert_eq!(
        decode_entry(&[0, 1, 0, 0, 0, 2, 0, 0, 0]),
        Ok(Entry::Vacant(VacantEntry { next: 1, prev: 2 }))
    );
}
