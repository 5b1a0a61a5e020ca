//! Numbers as bytes, the lowest byte first.

use vstd::prelude::*;
use vstd::arithmetic::div_mod::{lemma_fundamental_div_mod, lemma_small_mod};

verus! {

/// The number that `bytes` stand for, the lowest byte first.
pub open spec fn le_value(bytes: Seq<u8>) -> nat
    decreases bytes.len(),
{
    if bytes.len() == 0 {
        0
    } else {
        bytes[0] as nat + 256 * le_value(bytes.drop_first())
    }
}

/// The lowest `len` bytes of `value`, the lowest first.
pub open spec fn le_bytes(value: nat, len: nat) -> Seq<u8>
    decreases len,
{
    if len == 0 {
        Seq::empty()
    } else {
        seq![(value % 256) as u8] + le_bytes(value / 256, (len - 1) as nat)
    }
}

/// The number of values that `len` bytes can take.
pub open spec fn radix_power(len: nat) -> nat
    decreases len,
{
    if len == 0 {
        1
    } else {
        256 * radix_power((len - 1) as nat)
    }
}

/// The number that bytes stand for is below the number of values that they
/// can take.
pub proof fn lemma_le_value_bound(bytes: Seq<u8>)
    ensures
        le_value(bytes) < radix_power(bytes.len()),
    decreases bytes.len(),
{
    if bytes.len() > 0 {
        lemma_le_value_bound(bytes.drop_first());
        let rest = le_value(bytes.drop_first());
        let bound = radix_power((bytes.len() - 1) as nat);
        assert(bytes[0] as nat + 256 * rest < 256 * bound) by (nonlinear_arith)
            requires
                rest < bound,
                bytes[0] < 256,
        ;
    }
}

/// Cutting a number to `len` bytes keeps what is left when it is divided by
/// the number of values that `len` bytes can take.
pub proof fn lemma_le_bytes_value(value: nat, len: nat)
    ensures
        le_bytes(value, len).len() == len,
        le_value(le_bytes(value, len)) == value % radix_power(len),
    decreases len,
{
    if len > 0 {
        let rest_len = (len - 1) as nat;
        let bytes = le_bytes(value, len);
        lemma_le_bytes_value(value / 256, rest_len);
        assert(bytes.drop_first() =~= le_bytes(value / 256, rest_len));
        let power = radix_power(rest_len);
        lemma_radix_power_positive(rest_len);
        let high = (value / 256) % power;
        let low = value % 256;
        lemma_fundamental_div_mod(value as int, 256);
        lemma_fundamental_div_mod((value / 256) as int, power as int);
        let skipped = (value / 256) / power;
        assert(value == (256 * power) * skipped + (low + 256 * high)) by (nonlinear_arith)
            requires
                value == 256 * (value / 256) + low,
                value / 256 == power * skipped + high,
        ;
        assert(low + 256 * high < 256 * power) by (nonlinear_arith)
            requires
                low < 256,
                high < power,
        ;
        lemma_mod_of_sum((256 * power) as nat, skipped, (low + 256 * high) as nat);
    }
}

/// A number below `modulus` is what is left of itself plus any multiple of
/// `modulus`.
pub proof fn lemma_mod_of_sum(modulus: nat, times: nat, rest: nat)
    requires
        rest < modulus,
    ensures
        (modulus * times + rest) % modulus == rest,
{
    vstd::arithmetic::div_mod::lemma_mod_multiples_vanish(
        times as int,
        rest as int,
        modulus as int,
    );
    lemma_small_mod(rest, modulus);
}

/// Any number of bytes can take at least one value.
pub proof fn lemma_radix_power_positive(len: nat)
    ensures
        radix_power(len) > 0,
    decreases len,
{
    if len > 0 {
        lemma_radix_power_positive((len - 1) as nat);
    }
}

/// Eight bytes or more can take every value that a `u64` can.
pub proof fn lemma_radix_power_covers_u64(len: nat)
    requires
        len >= 8,
    ensures
        radix_power(len) > u64::MAX,
    decreases len,
{
    if len == 8 {
        reveal_with_fuel(radix_power, 9);
    } else {
        lemma_radix_power_covers_u64((len - 1) as nat);
    }
}

/// Adding a multiple of the number of values that `len` bytes can take does
/// not change the lowest `len` bytes.
pub proof fn lemma_le_bytes_shift(value: nat, times: nat, len: nat)
    ensures
        le_bytes(radix_power(len) * times + value, len) == le_bytes(value, len),
    decreases len,
{
    if len > 0 {
        let rest_len = (len - 1) as nat;
        let power = radix_power(rest_len);
        let shifted = radix_power(len) * times + value;
        assert(shifted == 256 * (power * times) + value) by (nonlinear_arith)
            requires
                shifted == (256 * power) * times + value,
        ;
        lemma_fundamental_div_mod(value as int, 256);
        lemma_fundamental_div_mod(shifted as int, 256);
        assert(shifted % 256 == value % 256 && shifted / 256 == power * times + value / 256)
            by (nonlinear_arith)
            requires
                shifted == 256 * (power * times) + value,
                value == 256 * (value / 256) + value % 256,
                shifted == 256 * (shifted / 256) + shifted % 256,
                0 <= value % 256 < 256,
                0 <= shifted % 256 < 256,
        ;
        lemma_le_bytes_shift(value / 256, times, rest_len);
    }
}

} // verus!
