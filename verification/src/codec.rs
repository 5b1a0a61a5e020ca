//! The bytes of a header and of a slot in their cells.

use vstd::prelude::*;
use vstd::slice::slice_subrange;
use crate::entry::{Entry, Header, VacantEntry};
use crate::little_endian::{le_bytes, le_value, lemma_le_bytes_value, radix_power};

verus! {

/// `parity_scale_codec::Error`, the error of the codec. Nothing is known of
/// what such an error holds.
#[verifier::external_type_specification]
#[verifier::external_body]
pub struct ExCodecError(parity_scale_codec::Error);

/// Why bytes could not be read as a header or a slot.
#[derive(Clone, Copy, Debug, PartialEq, Eq, Structural)]
pub enum DecodeError {
    /// The bytes end before the value does.
    NotEnoughData,
    /// The first byte of a slot says neither vacant nor occupied.
    UnknownVariant,
}

/// `parity_scale_codec::Encode::encode` of a `u32`: the four bytes of the
/// number, the lowest first.
#[verifier::external_body]
fn encode_u32(value: u32) -> (bytes: Vec<u8>)
    ensures
        bytes@ == le_bytes(value as nat, 4),
{
    parity_scale_codec::Encode::encode(&value)
}

/// `parity_scale_codec::Decode::decode` of a `u32` from a byte slice: the
/// number that the first four bytes stand for, the lowest first; an error if
/// there are fewer than four bytes. Bytes after the fourth are not looked at.
#[verifier::external_body]
fn decode_u32(bytes: &[u8]) -> (value: Result<u32, parity_scale_codec::Error>)
    ensures
        value.is_ok() == (bytes@.len() >= 4),
        value.is_ok() ==> value.unwrap() == le_value(bytes@.subrange(0, 4)),
{
    let mut input = bytes;
    parity_scale_codec::Decode::decode(&mut input)
}

/// The number that the four bytes of `bytes` from `at` on stand for.
pub open spec fn u32_at(bytes: Seq<u8>, at: int) -> u32 {
    le_value(bytes.subrange(at, at + 4)) as u32
}

/// The bytes of a header: its three numbers, four bytes each.
pub open spec fn header_bytes(header: Header) -> Seq<u8> {
    le_bytes(header.last_vacant as nat, 4) + le_bytes(header.len as nat, 4) + le_bytes(
        header.len_entries as nat,
        4,
    )
}

/// The header that `bytes` start with.
pub open spec fn parsed_header(bytes: Seq<u8>) -> Result<Header, DecodeError> {
    if bytes.len() < 12 {
        Err(DecodeError::NotEnoughData)
    } else {
        Ok(
            Header {
                last_vacant: u32_at(bytes, 0),
                len: u32_at(bytes, 4),
                len_entries: u32_at(bytes, 8),
            },
        )
    }
}

/// The bytes of the links of a vacant slot: `next`, then `prev`.
pub open spec fn links_bytes(links: VacantEntry) -> Seq<u8> {
    le_bytes(links.next as nat, 4) + le_bytes(links.prev as nat, 4)
}

/// The links that `bytes` start with.
pub open spec fn parsed_links(bytes: Seq<u8>) -> Result<VacantEntry, DecodeError> {
    if bytes.len() < 8 {
        Err(DecodeError::NotEnoughData)
    } else {
        Ok(VacantEntry { next: u32_at(bytes, 0), prev: u32_at(bytes, 4) })
    }
}

/// The bytes of a slot whose value, if it has one, is given by its bytes: a
/// byte that tells vacant, 0, from occupied, 1, and then the links or the
/// value.
pub open spec fn entry_bytes(entry: Entry<Seq<u8>>) -> Seq<u8> {
    match entry {
        Entry::Vacant(links) => seq![0u8] + links_bytes(links),
        Entry::Occupied(value) => seq![1u8] + value,
    }
}

/// The slot that `bytes` hold; the value of an occupied slot is all that
/// follows the first byte.
pub open spec fn parsed_entry(bytes: Seq<u8>) -> Result<Entry<Seq<u8>>, DecodeError> {
    if bytes.len() == 0 {
        Err(DecodeError::NotEnoughData)
    } else if bytes[0] == 0 {
        match parsed_links(bytes.drop_first()) {
            Ok(links) => Ok(Entry::Vacant(links)),
            Err(error) => Err(error),
        }
    } else if bytes[0] == 1 {
        Ok(Entry::Occupied(bytes.drop_first()))
    } else {
        Err(DecodeError::UnknownVariant)
    }
}

/// A slot with the bytes of its value as a sequence.
pub open spec fn entry_view(entry: Entry<Vec<u8>>) -> Entry<Seq<u8>> {
    match entry {
        Entry::Vacant(links) => Entry::Vacant(links),
        Entry::Occupied(value) => Entry::Occupied(value@),
    }
}

/// Reads a number from the start of `bytes` and hands it back with the
/// bytes that follow it. An error if the bytes are fewer than four.
fn split_u32(bytes: &[u8]) -> (split: Result<(u32, &[u8]), DecodeError>)
    ensures
        split.is_ok() == (bytes@.len() >= 4),
        split.is_ok() ==> split.unwrap().0 == u32_at(bytes@, 0) && split.unwrap().1@
            == bytes@.subrange(4, bytes@.len() as int),
        split.is_err() ==> split == Err::<(u32, &[u8]), DecodeError>(DecodeError::NotEnoughData),
{
    match decode_u32(bytes) {
        Ok(value) => {
            proof {
                crate::little_endian::lemma_le_value_bound(bytes@.subrange(0, 4));
                reveal_with_fuel(radix_power, 5);
            }
            Ok((value, slice_subrange(bytes, 4, bytes.len())))
        },
        Err(_) => Err(DecodeError::NotEnoughData),
    }
}

/// The bytes of `header`.
pub fn encode_header(header: &Header) -> (bytes: Vec<u8>)
    ensures
        bytes@ == header_bytes(*header),
{
    let mut bytes = encode_u32(header.last_vacant);
    let mut len = encode_u32(header.len);
    let mut len_entries = encode_u32(header.len_entries);
    bytes.append(&mut len);
    bytes.append(&mut len_entries);
    bytes
}

/// The header that `bytes` start with; an error if they are fewer than 12.
pub fn decode_header(bytes: &[u8]) -> (header: Result<Header, DecodeError>)
    ensures
        header == parsed_header(bytes@),
{
    let (last_vacant, rest) = match split_u32(bytes) {
        Ok(split) => split,
        Err(error) => {
            return Err(error);
        },
    };
    let (len, rest) = match split_u32(rest) {
        Ok(split) => split,
        Err(error) => {
            return Err(error);
        },
    };
    let (len_entries, _) = match split_u32(rest) {
        Ok(split) => split,
        Err(error) => {
            return Err(error);
        },
    };
    proof {
        let after_first = bytes@.subrange(4, bytes@.len() as int);
        let after_second = after_first.subrange(4, after_first.len() as int);
        assert(after_first.subrange(0, 4) =~= bytes@.subrange(4, 8));
        assert(after_second.subrange(0, 4) =~= bytes@.subrange(8, 12));
    }
    Ok(Header { last_vacant, len, len_entries })
}

/// The bytes of the links `links`.
pub fn encode_links(links: &VacantEntry) -> (bytes: Vec<u8>)
    ensures
        bytes@ == links_bytes(*links),
{
    let mut bytes = encode_u32(links.next);
    let mut prev = encode_u32(links.prev);
    bytes.append(&mut prev);
    bytes
}

/// The links that `bytes` start with; an error if they are fewer than 8.
pub fn decode_links(bytes: &[u8]) -> (links: Result<VacantEntry, DecodeError>)
    ensures
        links == parsed_links(bytes@),
{
    let (next, rest) = match split_u32(bytes) {
        Ok(split) => split,
        Err(error) => {
            return Err(error);
        },
    };
    let (prev, _) = match split_u32(rest) {
        Ok(split) => split,
        Err(error) => {
            return Err(error);
        },
    };
    proof {
        let after_first = bytes@.subrange(4, bytes@.len() as int);
        assert(after_first.subrange(0, 4) =~= bytes@.subrange(4, 8));
    }
    Ok(VacantEntry { next, prev })
}

/// The bytes of the slot `entry`, whose value, if it has one, is given by
/// its bytes.
pub fn encode_entry(entry: &Entry<Vec<u8>>) -> (bytes: Vec<u8>)
    ensures
        bytes@ == entry_bytes(entry_view(*entry)),
{
    let mut bytes: Vec<u8> = Vec::new();
    match entry {
        Entry::Vacant(links) => {
            bytes.push(0);
            let mut rest = encode_links(links);
            bytes.append(&mut rest);
        },
        Entry::Occupied(value) => {
            bytes.push(1);
            bytes.extend_from_slice(value.as_slice());
        },
    }
    bytes
}

/// The slot that `bytes` hold, its value given by its bytes. An error if
/// there is no byte, if the first byte is neither 0 nor 1, or if the links of
/// a vacant slot are cut short.
pub fn decode_entry(bytes: &[u8]) -> (entry: Result<Entry<Vec<u8>>, DecodeError>)
    ensures
        match entry {
            Ok(entry) => parsed_entry(bytes@) == Ok::<Entry<Seq<u8>>, DecodeError>(
                entry_view(entry),
            ),
            Err(error) => parsed_entry(bytes@) == Err::<Entry<Seq<u8>>, DecodeError>(error),
        },
{
    if bytes.len() == 0 {
        return Err(DecodeError::NotEnoughData);
    }
    let rest = slice_subrange(bytes, 1, bytes.len());
    if bytes[0] == 0 {
        match decode_links(rest) {
            Ok(links) => Ok(Entry::Vacant(links)),
            Err(error) => Err(error),
        }
    } else if bytes[0] == 1 {
        let value = vstd::slice::slice_to_vec(rest);
        Ok(Entry::Occupied(value))
    } else {
        Err(DecodeError::UnknownVariant)
    }
}

/// Four bytes of a number below 2 to the 32 stand for that number.
pub proof fn lemma_u32_round_trip(value: u32, before: Seq<u8>, after: Seq<u8>)
    ensures
        u32_at(before + le_bytes(value as nat, 4) + after, before.len() as int) == value,
{
    lemma_le_bytes_value(value as nat, 4);
    reveal_with_fuel(radix_power, 5);
    let all = before + le_bytes(value as nat, 4) + after;
    assert(all.subrange(before.len() as int, before.len() as int + 4) =~= le_bytes(value as nat, 4));
    vstd::arithmetic::div_mod::lemma_small_mod(value as nat, radix_power(4));
}

/// A header is read back from its bytes, whatever follows them.
pub proof fn theorem_header_round_trip(header: Header, rest: Seq<u8>)
    ensures
        parsed_header(header_bytes(header) + rest) == Ok::<Header, DecodeError>(header),
{
    let first = le_bytes(header.last_vacant as nat, 4);
    let second = le_bytes(header.len as nat, 4);
    let third = le_bytes(header.len_entries as nat, 4);
    lemma_le_bytes_value(header.last_vacant as nat, 4);
    lemma_le_bytes_value(header.len as nat, 4);
    lemma_le_bytes_value(header.len_entries as nat, 4);
    let all = header_bytes(header) + rest;
    lemma_u32_round_trip(header.last_vacant, Seq::empty(), second + third + rest);
    assert(Seq::<u8>::empty() + first + (second + third + rest) =~= all);
    lemma_u32_round_trip(header.len, first, third + rest);
    assert(first + second + (third + rest) =~= all);
    lemma_u32_round_trip(header.len_entries, first + second, rest);
}

/// The links of a vacant slot are read back from their bytes, whatever
/// follows them.
pub proof fn theorem_links_round_trip(links: VacantEntry, rest: Seq<u8>)
    ensures
        parsed_links(links_bytes(links) + rest) == Ok::<VacantEntry, DecodeError>(links),
{
    let first = le_bytes(links.next as nat, 4);
    let second = le_bytes(links.prev as nat, 4);
    lemma_le_bytes_value(links.next as nat, 4);
    lemma_le_bytes_value(links.prev as nat, 4);
    let all = links_bytes(links) + rest;
    lemma_u32_round_trip(links.next, Seq::empty(), second + rest);
    assert(Seq::<u8>::empty() + first + (second + rest) =~= all);
    lemma_u32_round_trip(links.prev, first, rest);
}

/// A slot is read back from its bytes.
pub proof fn theorem_entry_round_trip(entry: Entry<Seq<u8>>)
    ensures
        parsed_entry(entry_bytes(entry)) == Ok::<Entry<Seq<u8>>, DecodeError>(entry),
{
    match entry {
        Entry::Vacant(links) => {
            theorem_links_round_trip(links, Seq::empty());
            assert(entry_bytes(entry).drop_first() =~= links_bytes(links) + Seq::<u8>::empty());
        },
        Entry::Occupied(value) => {
            assert(entry_bytes(entry).drop_first() =~= value);
        },
    }
}

} // verus!
