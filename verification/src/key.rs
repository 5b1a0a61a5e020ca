//! Cell addresses, and the cursor that hands them out.

use vstd::prelude::*;
use vstd::arithmetic::div_mod::lemma_fundamental_div_mod;
use crate::little_endian::{
    le_bytes, le_value, lemma_le_bytes_shift, lemma_le_bytes_value, lemma_radix_power_covers_u64,
    lemma_radix_power_positive, radix_power,
};

verus! {

/// The address of one cell of the backing store: 32 bytes, which are read as
/// a number with the lowest byte first.
#[derive(Clone, Copy, Debug, PartialEq, Eq)]
pub struct Key {
    pub bytes: [u8; 32],
}

impl View for Key {
    type V = Seq<u8>;

    open spec fn view(&self) -> Seq<u8> {
        self.bytes@
    }
}

/// The bytes of the key that lies `offset` cells after the key `base`; after
/// the last key comes the first.
pub open spec fn offset_bytes(base: Seq<u8>, offset: u64) -> Seq<u8> {
    le_bytes(le_value(base) + offset as nat, 32)
}

impl Key {
    /// Makes a key of its 32 bytes.
    pub fn new(bytes: [u8; 32]) -> (key: Key)
        ensures
            key.bytes == bytes,
    {
        Key { bytes }
    }

    /// The 32 bytes of the key.
    pub fn as_bytes(&self) -> (bytes: &[u8; 32])
        ensures
            *bytes == self.bytes,
    {
        &self.bytes
    }

    /// The key that lies `offset` cells after this one: the sum of the
    /// two, byte by byte from the lowest, with what is carried over.
    pub fn offset(&self, offset: u64) -> (key: Key)
        ensures
            key@ == offset_bytes(self@, offset),
    {
        let mut bytes = self.bytes;
        let mut carry: u64 = offset;
        let mut index: usize = 0;
        assert(self@.subrange(0, 32) =~= self@);
        while index < 32
            invariant
                index <= 32,
                bytes@.len() == 32,
                carry <= u64::MAX,
                index > 0 ==> carry <= 0x0100_0000_0000_0000,
                bytes@.subrange(index as int, 32) == self@.subrange(index as int, 32),
                bytes@.subrange(0, index as int) + le_bytes(
                    le_value(self@.subrange(index as int, 32)) + carry as nat,
                    (32 - index) as nat,
                ) == offset_bytes(self@, offset),
            decreases 32 - index,
        {
            let byte = bytes[index];
            let sum: u64 = byte as u64 + carry % 256;
            proof {
                let rest = self@.subrange(index as int, 32);
                let higher = le_value(rest.drop_first());
                assert(rest[0] == byte);
                assert(rest.drop_first() =~= self@.subrange(index + 1, 32));
                lemma_digit(byte as nat, higher, carry as nat);
                let total = le_value(rest) + carry as nat;
                let after = bytes@.update(index as int, (sum % 256) as u8);
                assert(le_bytes(total, (32 - index) as nat) == seq![(total % 256) as u8] + le_bytes(
                    total / 256,
                    (32 - index - 1) as nat,
                ));
                assert(after.subrange(0, index + 1) =~= bytes@.subrange(0, index as int) + seq![
                    (total % 256) as u8,
                ]);
                assert(after.subrange(0, index + 1) + le_bytes(
                    total / 256,
                    (32 - index - 1) as nat,
                ) =~= bytes@.subrange(0, index as int) + le_bytes(total, (32 - index) as nat));
            }
            bytes[index] = (sum % 256) as u8;
            carry = carry / 256 + sum / 256;
            index += 1;
        }
        Key { bytes }
    }
}

/// A cursor over the keys: it stands at the key of the next value and moves
/// on by the number of cells that each value takes.
#[derive(Clone, Copy, Debug)]
pub struct KeyPtr {
    key: Key,
}

impl View for KeyPtr {
    type V = Key;

    /// The key at which the cursor stands.
    closed spec fn view(&self) -> Key {
        self.key
    }
}

impl KeyPtr {
    /// A cursor that stands at `key`.
    pub fn new(key: Key) -> (ptr: KeyPtr)
        ensures
            ptr@ == key,
    {
        KeyPtr { key }
    }

    /// The key at which the cursor stands.
    pub fn key(&self) -> (key: &Key)
        ensures
            *key == self@,
    {
        &self.key
    }

    /// Returns the key at which the cursor stands, for a value that takes
    /// `footprint` cells, and moves the cursor past these cells.
    pub fn next_for(&mut self, footprint: u64) -> (key: Key)
        ensures
            key == old(self)@,
            final(self)@@ == offset_bytes(old(self)@@, footprint),
    {
        let key = self.key;
        self.key = key.offset(footprint);
        key
    }
}

/// Adding to a number, one byte at a time: the lowest byte of the sum is that
/// of the sum of the lowest bytes, and what is left of the sum is what is left
/// of the two numbers and what the lowest bytes carry over.
pub proof fn lemma_digit(byte: nat, higher: nat, carry: nat)
    requires
        byte < 256,
    ensures
        (byte + 256 * higher + carry) % 256 == (byte + carry % 256) % 256,
        (byte + 256 * higher + carry) / 256 == higher + carry / 256 + (byte + carry % 256) / 256,
{
    let low = byte + carry % 256;
    let total = byte + 256 * higher + carry;
    lemma_fundamental_div_mod(carry as int, 256);
    lemma_fundamental_div_mod(low as int, 256);
    lemma_fundamental_div_mod(total as int, 256);
    let times = higher + carry / 256 + low / 256;
    assert(total == 256 * times + low % 256) by (nonlinear_arith)
        requires
            total == byte + 256 * higher + carry,
            carry == 256 * (carry / 256) + carry % 256,
            low == byte + carry % 256,
            low == 256 * (low / 256) + low % 256,
            times == higher + carry / 256 + low / 256,
    ;
    vstd::arithmetic::div_mod::lemma_fundamental_div_mod_converse(
        total as int,
        256,
        times as int,
        (low % 256) as int,
    );
}

/// Cells that lie at different offsets from one key have different keys.
pub proof fn theorem_offsets_differ(base: Seq<u8>, a: u64, b: u64)
    requires
        a != b,
    ensures
        offset_bytes(base, a) != offset_bytes(base, b),
{
    let space = radix_power(32);
    let start = le_value(base);
    lemma_radix_power_covers_u64(32);
    lemma_le_bytes_value(start + a as nat, 32);
    lemma_le_bytes_value(start + b as nat, 32);
    if offset_bytes(base, a) == offset_bytes(base, b) {
        let left = (start + a) as int;
        let right = (start + b) as int;
        lemma_fundamental_div_mod(left, space as int);
        lemma_fundamental_div_mod(right, space as int);
        let times_left = left / (space as int);
        let times_right = right / (space as int);
        assert(false) by (nonlinear_arith)
            requires
                left == space * times_left + left % (space as int),
                right == space * times_right + left % (space as int),
                left != right,
                -space < left - right < space,
        ;
    }
}

/// Moving on by one number of cells and then by another leads to the key at
/// which moving on by their sum does.
pub proof fn theorem_offsets_add(base: Seq<u8>, a: u64, b: u64)
    requires
        a + b <= u64::MAX,
    ensures
        offset_bytes(offset_bytes(base, a), b) == offset_bytes(base, (a + b) as u64),
{
    let space = radix_power(32);
    let start = le_value(base);
    lemma_radix_power_positive(32);
    lemma_le_bytes_value(start + a as nat, 32);
    let middle = (start + a as nat) % space;
    lemma_fundamental_div_mod((start + a) as int, space as int);
    let times = (start + a as nat) / space;
    lemma_le_bytes_shift(middle + b as nat, times, 32);
}

} // verus!
