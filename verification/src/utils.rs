//! Small numeric helpers shared by the Steim codecs.

use vstd::prelude::*;
use vstd::arithmetic::power2::{lemma2_to64, lemma_pow2_adds, lemma_pow2_pos, pow2};
use vstd::bits::{lemma_u64_low_bits_mask_is_mod, lemma_u64_pow2_no_overflow, lemma_u64_shl_is_mul, low_bits_mask};
use vstd::arithmetic::div_mod::lemma_mod_multiples_vanish;

verus! {

/// The low `bits` bits of `value` read as a two's complement number of `bits` bits.
pub open spec fn sign_extend_spec(value: i32, bits: u32) -> i32 {
    twos_complement_low(value, bits) as i32
}

/// The low `bits` bits of `value` moved to the top of the word and shifted back
/// arithmetically: the form of [`sign_extend_spec`] that the bit-vector solver reads.
pub open spec fn sign_extend_shift(value: i32, bits: u32) -> i32 {
    (value << ((32 - bits) as u32)) >> ((32 - bits) as u32)
}

proof fn lemma_shift_pair_masked(v: i32, b: u32)
    requires
        1 <= b <= 32,
    ensures
        ({
            let x: u64 = v as u32 as u64;
            let m: u64 = 1u64 << b;
            let low: u64 = x & ((m - 1) as u64);
            ((v << ((32 - b) as u32)) >> ((32 - b) as u32)) as i64 == if low >= m / 2 {
                (low as i64 - m as i64) as i64
            } else {
                low as i64
            }
        }),
{
    let x: u64 = v as u32 as u64;
    let m: u64 = 1u64 << b;
    let low: u64 = x & ((m - 1) as u64);
    assert(((v << ((32 - b) as u32)) >> ((32 - b) as u32)) as i64 == if low >= m / 2 {
        (low as i64 - m as i64) as i64
    } else {
        low as i64
    }) by (bit_vector)
        requires
            1 <= b <= 32,
            x == v as u32 as u64,
            m == 1u64 << b,
            low == x & ((m - 1) as u64),
    ;
}

/// The low `bits` bits of `value` read as a two's complement number of `bits` bits:
/// the remainder of `value` modulo 2^bits, less 2^bits when it is 2^(bits - 1) or more.
pub open spec fn twos_complement_low(value: i32, bits: u32) -> int {
    let m = pow2(bits as nat) as int;
    let low = (value as int) % m;
    if low >= m / 2 {
        low - m
    } else {
        low
    }
}

/// Shifting the low `bits` bits of `value` to the top and back arithmetically reads
/// them as a two's complement number.
pub proof fn lemma_shift_pair_is_twos_complement(v: i32, b: u32)
    requires
        1 <= b <= 32,
    ensures
        ((v << ((32 - b) as u32)) >> ((32 - b) as u32)) as int == twos_complement_low(v, b),
{
    let x: u64 = v as u32 as u64;
    let m: u64 = 1u64 << b;
    let low: u64 = x & ((m - 1) as u64);
    lemma_shift_pair_masked(v, b);
    lemma_u64_pow2_no_overflow(b as nat);
    lemma_u64_shl_is_mul(1u64, b as u64);
    assert(m as int == pow2(b as nat));
    lemma_u64_low_bits_mask_is_mod(x, b as nat);
    assert(low == x % m);
    lemma_pow2_pos(b as nat);
    lemma2_to64();
    lemma_pow2_adds(b as nat, (32 - b) as nat);
    assert(pow2(b as nat) * pow2((32 - b) as nat) == 0x1_0000_0000);
    if v < 0 {
        assert(x as i64 == v as i64 + 0x1_0000_0000i64) by (bit_vector)
            requires x == v as u32 as u64, v < 0;
        lemma_mod_multiples_vanish(pow2((32 - b) as nat) as int, v as int, pow2(b as nat) as int);
        assert((x as int) % (m as int) == (v as int) % (m as int));
    } else {
        assert(x as i64 == v as i64) by (bit_vector)
            requires x == v as u32 as u64, v >= 0;
    }
}

/// The two forms of reading the low bits of a word as a two's complement number agree.
pub broadcast proof fn lemma_sign_extend_shift(v: i32, b: u32)
    requires
        1 <= b <= 32,
    ensures
        #[trigger] sign_extend_spec(v, b) == sign_extend_shift(v, b),
{
    lemma_shift_pair_is_twos_complement(v, b);
}

/// Reads the low `bits` bits of `value` as a two's complement number.
pub fn sign_extend(value: i32, bits: u32) -> (r: i32)
    requires
        1 <= bits <= 32,
    ensures
        r == sign_extend_spec(value, bits),
{
    let shift: u32 = 32 - bits;
    proof {
        lemma_sign_extend_shift(value, bits);
    }
    (value << shift) >> shift
}

/// The least of the widths 4, 5, 6, 8, 10, 15, 16, 30 and 32 in which `v` fits
/// as a two's complement number.
pub open spec fn bitwidth_spec(v: i32) -> u8 {
    if -8 <= v <= 7 {
        4
    } else if -16 <= v <= 15 {
        5
    } else if -32 <= v <= 31 {
        6
    } else if -128 <= v <= 127 {
        8
    } else if -512 <= v <= 511 {
        10
    } else if -16384 <= v <= 16383 {
        15
    } else if -32768 <= v <= 32767 {
        16
    } else if -536_870_912 <= v <= 536_870_911 {
        30
    } else {
        32
    }
}

/// Bits needed to represent a value, among the widths that the Steim codecs pack.
pub fn bitwidth_needed(value: i32) -> (r: u8)
    ensures
        r == bitwidth_spec(value),
{
    if -8 <= value && value <= 7 {
        4
    } else if -16 <= value && value <= 15 {
        5
    } else if -32 <= value && value <= 31 {
        6
    } else if -128 <= value && value <= 127 {
        8
    } else if -512 <= value && value <= 511 {
        10
    } else if -16384 <= value && value <= 16383 {
        15
    } else if -32768 <= value && value <= 32767 {
        16
    } else if -536_870_912 <= value && value <= 536_870_911 {
        30
    } else {
        32
    }
}

/// Whether the first of the big-endian bytes of the integer 1 is 1. The big-endian
/// bytes of 1 are `[0, 0, 0, 1]` on every target, so the answer is always `false`.
pub fn is_big_endian() -> (r: bool)
    ensures
        !r,
{
    let num: u32 = 1;
    let first: u8 = (num / 0x0100_0000) as u8;
    first == 1
}

} // verus!
