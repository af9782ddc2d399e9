//! Where the Steim formats put each difference in a data word: the laws of the word
//! layouts, stated as arithmetic on the word and the differences read from it.

use vstd::prelude::*;
use crate::steim_spec::{
    code_word, decoded_after, diffs_of, dnib_of, frame_x0, integrate, nibble_at, steim_decode, steim1_pack_at, steim1_word_diffs, steim2_pack_at, steim2_word_diffs, unpack,
    widths_within, word_diffs, SteimError, SteimLevel,
};
use crate::steim_laws::{lemma_steim1_pack_at, lemma_steim2_pack_at};
use crate::utils::bitwidth_spec;
use vstd::arithmetic::power2::pow2;
use vstd::bits::lemma_u32_shr_is_div;
use crate::utils::{lemma_sign_extend_shift, sign_extend_shift};
use crate::words::swap32;

verus! {

broadcast use lemma_sign_extend_shift;

/// The low bits of `x` as an unsigned field: `x` modulo `m`, for `m` a power of two.
pub open spec fn low_field(x: i32, m: u32) -> int {
    ((x as u32) % m) as int
}

/// The word `w` seen unsigned.
pub open spec fn word_value(w: i32) -> int {
    (w as u32) as int
}

/// The two bits at the top of `w`.
pub open spec fn top_bits(w: i32) -> int {
    word_value(w) / 0x4000_0000
}

/// Each of `d` lies in the range of a two's complement number of `bits` bits.
pub open spec fn all_fit(d: Seq<i32>, bits: int) -> bool {
    forall|k: int| 0 <= k < d.len() ==> -half(bits) <= #[trigger] d[k] < half(bits)
}

/// 2^(bits - 1), for the widths of the Steim fields.
pub open spec fn half(bits: int) -> int {
    if bits == 4 {
        8
    } else if bits == 5 {
        16
    } else if bits == 6 {
        32
    } else if bits == 8 {
        128
    } else if bits == 10 {
        512
    } else if bits == 15 {
        0x4000
    } else if bits == 16 {
        0x8000
    } else {
        0x2000_0000
    }
}

proof fn lemma_4x8(w: i32)
    ensures
        ({
            let ds = unpack(w, 4, 8);
            &&& ds.len() == 4
            &&& all_fit(ds, 8)
            &&& word_value(w) == low_field(ds[0], 0x100) * 0x1000000 + low_field(ds[1], 0x100) * 0x10000 + low_field(ds[2], 0x100) * 0x100 + low_field(ds[3], 0x100)
        }),
{
    let ds = unpack(w, 4, 8);
    let f0 = sign_extend_shift((w >> 24u32) & 0xFF, 8);
    let f1 = sign_extend_shift((w >> 16u32) & 0xFF, 8);
    let f2 = sign_extend_shift((w >> 8u32) & 0xFF, 8);
    let f3 = sign_extend_shift((w >> 0u32) & 0xFF, 8);
    assert(ds[0] == f0 && ds[1] == f1 && ds[2] == f2 && ds[3] == f3);
    assert({
        &&& -128 <= f0 < 128
        &&& -128 <= f1 < 128
        &&& -128 <= f2 < 128
        &&& -128 <= f3 < 128
        &&& (w as u32) as int == ((f0 as u32) % 0x100) as int * 0x1000000 + ((f1 as u32) % 0x100) as int * 0x10000 + ((f2 as u32) % 0x100) as int * 0x100 + ((f3 as u32) % 0x100) as int
    }) by (bit_vector)
        requires
            f0 == sign_extend_shift((w >> 24u32) & 0xFF, 8),
            f1 == sign_extend_shift((w >> 16u32) & 0xFF, 8),
            f2 == sign_extend_shift((w >> 8u32) & 0xFF, 8),
            f3 == sign_extend_shift((w >> 0u32) & 0xFF, 8),
    ;
}

proof fn lemma_2x16(w: i32)
    ensures
        ({
            let ds = unpack(w, 2, 16);
            &&& ds.len() == 2
            &&& all_fit(ds, 16)
            &&& word_value(w) == low_field(ds[0], 0x10000) * 0x10000 + low_field(ds[1], 0x10000)
        }),
{
    let ds = unpack(w, 2, 16);
    let f0 = sign_extend_shift((w >> 16u32) & 0xFFFF, 16);
    let f1 = sign_extend_shift((w >> 0u32) & 0xFFFF, 16);
    assert(ds[0] == f0 && ds[1] == f1);
    assert({
        &&& -32768 <= f0 < 32768
        &&& -32768 <= f1 < 32768
        &&& (w as u32) as int == ((f0 as u32) % 0x10000) as int * 0x10000 + ((f1 as u32) % 0x10000) as int
    }) by (bit_vector)
        requires
            f0 == sign_extend_shift((w >> 16u32) & 0xFFFF, 16),
            f1 == sign_extend_shift((w >> 0u32) & 0xFFFF, 16),
    ;
}

proof fn lemma_1x30(w: i32)
    ensures
        ({
            let ds = unpack(w, 1, 30);
            &&& ds.len() == 1
            &&& all_fit(ds, 30)
            &&& word_value(w) % 0x40000000 == low_field(ds[0], 0x40000000)
        }),
{
    let ds = unpack(w, 1, 30);
    let f0 = sign_extend_shift((w >> 0u32) & 0x3FFFFFFF, 30);
    assert(ds[0] == f0);
    assert({
        &&& -536870912 <= f0 < 536870912
        &&& ((w as u32) % 0x40000000) as int == ((f0 as u32) % 0x40000000) as int
    }) by (bit_vector)
        requires
            f0 == sign_extend_shift((w >> 0u32) & 0x3FFFFFFF, 30),
    ;
}

proof fn lemma_2x15(w: i32)
    ensures
        ({
            let ds = unpack(w, 2, 15);
            &&& ds.len() == 2
            &&& all_fit(ds, 15)
            &&& word_value(w) % 0x40000000 == low_field(ds[0], 0x8000) * 0x8000 + low_field(ds[1], 0x8000)
        }),
{
    let ds = unpack(w, 2, 15);
    let f0 = sign_extend_shift((w >> 15u32) & 0x7FFF, 15);
    let f1 = sign_extend_shift((w >> 0u32) & 0x7FFF, 15);
    assert(ds[0] == f0 && ds[1] == f1);
    assert({
        &&& -16384 <= f0 < 16384
        &&& -16384 <= f1 < 16384
        &&& ((w as u32) % 0x40000000) as int == ((f0 as u32) % 0x8000) as int * 0x8000 + ((f1 as u32) % 0x8000) as int
    }) by (bit_vector)
        requires
            f0 == sign_extend_shift((w >> 15u32) & 0x7FFF, 15),
            f1 == sign_extend_shift((w >> 0u32) & 0x7FFF, 15),
    ;
}

proof fn lemma_3x10(w: i32)
    ensures
        ({
            let ds = unpack(w, 3, 10);
            &&& ds.len() == 3
            &&& all_fit(ds, 10)
            &&& word_value(w) % 0x40000000 == low_field(ds[0], 0x400) * 0x100000 + low_field(ds[1], 0x400) * 0x400 + low_field(ds[2], 0x400)
        }),
{
    let ds = unpack(w, 3, 10);
    let f0 = sign_extend_shift((w >> 20u32) & 0x3FF, 10);
    let f1 = sign_extend_shift((w >> 10u32) & 0x3FF, 10);
    let f2 = sign_extend_shift((w >> 0u32) & 0x3FF, 10);
    assert(ds[0] == f0 && ds[1] == f1 && ds[2] == f2);
    assert({
        &&& -512 <= f0 < 512
        &&& -512 <= f1 < 512
        &&& -512 <= f2 < 512
        &&& ((w as u32) % 0x40000000) as int == ((f0 as u32) % 0x400) as int * 0x100000 + ((f1 as u32) % 0x400) as int * 0x400 + ((f2 as u32) % 0x400) as int
    }) by (bit_vector)
        requires
            f0 == sign_extend_shift((w >> 20u32) & 0x3FF, 10),
            f1 == sign_extend_shift((w >> 10u32) & 0x3FF, 10),
            f2 == sign_extend_shift((w >> 0u32) & 0x3FF, 10),
    ;
}

proof fn lemma_5x6(w: i32)
    ensures
        ({
            let ds = unpack(w, 5, 6);
            &&& ds.len() == 5
            &&& all_fit(ds, 6)
            &&& word_value(w) % 0x40000000 == low_field(ds[0], 0x40) * 0x1000000 + low_field(ds[1], 0x40) * 0x40000 + low_field(ds[2], 0x40) * 0x1000 + low_field(ds[3], 0x40) * 0x40 + low_field(ds[4], 0x40)
        }),
{
    let ds = unpack(w, 5, 6);
    let f0 = sign_extend_shift((w >> 24u32) & 0x3F, 6);
    let f1 = sign_extend_shift((w >> 18u32) & 0x3F, 6);
    let f2 = sign_extend_shift((w >> 12u32) & 0x3F, 6);
    let f3 = sign_extend_shift((w >> 6u32) & 0x3F, 6);
    let f4 = sign_extend_shift((w >> 0u32) & 0x3F, 6);
    assert(ds[0] == f0 && ds[1] == f1 && ds[2] == f2 && ds[3] == f3 && ds[4] == f4);
    assert({
        &&& -32 <= f0 < 32
        &&& -32 <= f1 < 32
        &&& -32 <= f2 < 32
        &&& -32 <= f3 < 32
        &&& -32 <= f4 < 32
        &&& ((w as u32) % 0x40000000) as int == ((f0 as u32) % 0x40) as int * 0x1000000 + ((f1 as u32) % 0x40) as int * 0x40000 + ((f2 as u32) % 0x40) as int * 0x1000 + ((f3 as u32) % 0x40) as int * 0x40 + ((f4 as u32) % 0x40) as int
    }) by (bit_vector)
        requires
            f0 == sign_extend_shift((w >> 24u32) & 0x3F, 6),
            f1 == sign_extend_shift((w >> 18u32) & 0x3F, 6),
            f2 == sign_extend_shift((w >> 12u32) & 0x3F, 6),
            f3 == sign_extend_shift((w >> 6u32) & 0x3F, 6),
            f4 == sign_extend_shift((w >> 0u32) & 0x3F, 6),
    ;
}

proof fn lemma_6x5(w: i32)
    ensures
        ({
            let ds = unpack(w, 6, 5);
            &&& ds.len() == 6
            &&& all_fit(ds, 5)
            &&& word_value(w) % 0x40000000 == low_field(ds[0], 0x20) * 0x2000000 + low_field(ds[1], 0x20) * 0x100000 + low_field(ds[2], 0x20) * 0x8000 + low_field(ds[3], 0x20) * 0x400 + low_field(ds[4], 0x20) * 0x20 + low_field(ds[5], 0x20)
        }),
{
    let ds = unpack(w, 6, 5);
    let f0 = sign_extend_shift((w >> 25u32) & 0x1F, 5);
    let f1 = sign_extend_shift((w >> 20u32) & 0x1F, 5);
    let f2 = sign_extend_shift((w >> 15u32) & 0x1F, 5);
    let f3 = sign_extend_shift((w >> 10u32) & 0x1F, 5);
    let f4 = sign_extend_shift((w >> 5u32) & 0x1F, 5);
    let f5 = sign_extend_shift((w >> 0u32) & 0x1F, 5);
    assert(ds[0] == f0 && ds[1] == f1 && ds[2] == f2 && ds[3] == f3 && ds[4] == f4 && ds[5] == f5);
    assert({
        &&& -16 <= f0 < 16
        &&& -16 <= f1 < 16
        &&& -16 <= f2 < 16
        &&& -16 <= f3 < 16
        &&& -16 <= f4 < 16
        &&& -16 <= f5 < 16
        &&& ((w as u32) % 0x40000000) as int == ((f0 as u32) % 0x20) as int * 0x2000000 + ((f1 as u32) % 0x20) as int * 0x100000 + ((f2 as u32) % 0x20) as int * 0x8000 + ((f3 as u32) % 0x20) as int * 0x400 + ((f4 as u32) % 0x20) as int * 0x20 + ((f5 as u32) % 0x20) as int
    }) by (bit_vector)
        requires
            f0 == sign_extend_shift((w >> 25u32) & 0x1F, 5),
            f1 == sign_extend_shift((w >> 20u32) & 0x1F, 5),
            f2 == sign_extend_shift((w >> 15u32) & 0x1F, 5),
            f3 == sign_extend_shift((w >> 10u32) & 0x1F, 5),
            f4 == sign_extend_shift((w >> 5u32) & 0x1F, 5),
            f5 == sign_extend_shift((w >> 0u32) & 0x1F, 5),
    ;
}

proof fn lemma_7x4(w: i32)
    ensures
        ({
            let ds = unpack(w, 7, 4);
            &&& ds.len() == 7
            &&& all_fit(ds, 4)
            &&& word_value(w) % 0x10000000 == low_field(ds[0], 0x10) * 0x1000000 + low_field(ds[1], 0x10) * 0x100000 + low_field(ds[2], 0x10) * 0x10000 + low_field(ds[3], 0x10) * 0x1000 + low_field(ds[4], 0x10) * 0x100 + low_field(ds[5], 0x10) * 0x10 + low_field(ds[6], 0x10)
        }),
{
    let ds = unpack(w, 7, 4);
    let f0 = sign_extend_shift((w >> 24u32) & 0xF, 4);
    let f1 = sign_extend_shift((w >> 20u32) & 0xF, 4);
    let f2 = sign_extend_shift((w >> 16u32) & 0xF, 4);
    let f3 = sign_extend_shift((w >> 12u32) & 0xF, 4);
    let f4 = sign_extend_shift((w >> 8u32) & 0xF, 4);
    let f5 = sign_extend_shift((w >> 4u32) & 0xF, 4);
    let f6 = sign_extend_shift((w >> 0u32) & 0xF, 4);
    assert(ds[0] == f0 && ds[1] == f1 && ds[2] == f2 && ds[3] == f3 && ds[4] == f4 && ds[5] == f5 && ds[6] == f6);
    assert({
        &&& -8 <= f0 < 8
        &&& -8 <= f1 < 8
        &&& -8 <= f2 < 8
        &&& -8 <= f3 < 8
        &&& -8 <= f4 < 8
        &&& -8 <= f5 < 8
        &&& -8 <= f6 < 8
        &&& ((w as u32) % 0x10000000) as int == ((f0 as u32) % 0x10) as int * 0x1000000 + ((f1 as u32) % 0x10) as int * 0x100000 + ((f2 as u32) % 0x10) as int * 0x10000 + ((f3 as u32) % 0x10) as int * 0x1000 + ((f4 as u32) % 0x10) as int * 0x100 + ((f5 as u32) % 0x10) as int * 0x10 + ((f6 as u32) % 0x10) as int
    }) by (bit_vector)
        requires
            f0 == sign_extend_shift((w >> 24u32) & 0xF, 4),
            f1 == sign_extend_shift((w >> 20u32) & 0xF, 4),
            f2 == sign_extend_shift((w >> 16u32) & 0xF, 4),
            f3 == sign_extend_shift((w >> 12u32) & 0xF, 4),
            f4 == sign_extend_shift((w >> 8u32) & 0xF, 4),
            f5 == sign_extend_shift((w >> 4u32) & 0xF, 4),
            f6 == sign_extend_shift((w >> 0u32) & 0xF, 4),
    ;
}

proof fn lemma_top_bits(v: i32)
    ensures
        dnib_of(v) == top_bits(v),
        0 <= top_bits(v) < 4,
{
    assert((v >> 30u32) & 3 == ((v as u32) / 0x4000_0000) as i32) by (bit_vector);
}

/// The layouts of a Steim-1 data word, by its 2-bit code: code 1 holds four 8-bit
/// differences and code 2 two 16-bit ones, the first difference in the highest bits
/// of the word, each as its two's complement field; code 3 holds the word itself as
/// one difference; code 0 holds none. With byte swapping, code 1 reads the same,
/// code 2 gives its two differences in the other order, and code 3 reads the word
/// with its bytes reversed.
pub proof fn steim1_word_layout(w: i32)
    ensures
        steim1_word_diffs(0, w, false).len() == 0,
        ({
            let d = steim1_word_diffs(1, w, false);
            &&& d.len() == 4
            &&& all_fit(d, 8)
            &&& word_value(w) == low_field(d[0], 0x100) * 0x100_0000 + low_field(d[1], 0x100) * 0x1_0000
                + low_field(d[2], 0x100) * 0x100 + low_field(d[3], 0x100)
        }),
        ({
            let d = steim1_word_diffs(2, w, false);
            &&& d.len() == 2
            &&& all_fit(d, 16)
            &&& word_value(w) == low_field(d[0], 0x1_0000) * 0x1_0000 + low_field(d[1], 0x1_0000)
        }),
        steim1_word_diffs(3, w, false) == seq![w],
        steim1_word_diffs(1, w, true) == steim1_word_diffs(1, w, false),
        steim1_word_diffs(2, w, true) == steim1_word_diffs(2, w, false).reverse(),
        steim1_word_diffs(3, w, true) == steim1_word_diffs(3, swap32(w), false),
{
    lemma_4x8(w);
    lemma_2x16(w);
    assert(sign_extend_shift(w, 32) == w) by (bit_vector);
    assert(sign_extend_shift(swap32(w), 32) == swap32(w)) by {
        let x = swap32(w);
        assert(sign_extend_shift(x, 32) == x) by (bit_vector);
    }
    assert(steim1_word_diffs(3, w, false) =~= seq![w]);
    assert(steim1_word_diffs(2, w, true) =~= steim1_word_diffs(2, w, false).reverse());
}

/// The layouts of a Steim-2 data word, by its 2-bit code and, for codes 2 and 3, the
/// sub-code in its top two bits. Code 1 holds four 8-bit differences. Code 2 holds,
/// for sub-code 1, 2 and 3, one 30-bit, two 15-bit or three 10-bit differences in
/// its low 30 bits; sub-code 0 is an error. Code 3 holds, for sub-code 0, 1 and 2,
/// five 6-bit, six 5-bit (both in the low 30 bits) or seven 4-bit differences (in the
/// low 28 bits); sub-code 3 is an error. In each the first difference sits in the
/// highest field, as its two's complement field. Code 0 holds none. With byte
/// swapping, codes 2 and 3 read the word with its bytes reversed.
pub proof fn steim2_word_layout(w: i32)
    ensures
        steim2_word_diffs(0, w, false) == Ok::<Seq<i32>, SteimError>(seq![]),
        steim2_word_diffs(1, w, false) matches Ok(d) && d.len() == 4 && all_fit(d, 8) && word_value(w) == low_field(
            d[0],
            0x100,
        ) * 0x100_0000 + low_field(d[1], 0x100) * 0x1_0000 + low_field(d[2], 0x100) * 0x100 + low_field(d[3], 0x100),
        top_bits(w) == 0 ==> steim2_word_diffs(2, w, false) == Err::<Seq<i32>, SteimError>(
            SteimError::InvalidDnibForNibble10,
        ),
        top_bits(w) == 1 ==> (steim2_word_diffs(2, w, false) matches Ok(d) && d.len() == 1 && all_fit(d, 30)
            && word_value(w) % 0x4000_0000 == low_field(d[0], 0x4000_0000)),
        top_bits(w) == 2 ==> (steim2_word_diffs(2, w, false) matches Ok(d) && d.len() == 2 && all_fit(d, 15)
            && word_value(w) % 0x4000_0000 == low_field(d[0], 0x8000) * 0x8000 + low_field(d[1], 0x8000)),
        top_bits(w) == 3 ==> (steim2_word_diffs(2, w, false) matches Ok(d) && d.len() == 3 && all_fit(d, 10)
            && word_value(w) % 0x4000_0000 == low_field(d[0], 0x400) * 0x10_0000 + low_field(d[1], 0x400) * 0x400
            + low_field(d[2], 0x400)),
        top_bits(w) == 0 ==> (steim2_word_diffs(3, w, false) matches Ok(d) && d.len() == 5 && all_fit(d, 6)
            && word_value(w) % 0x4000_0000 == low_field(d[0], 0x40) * 0x100_0000 + low_field(d[1], 0x40) * 0x4_0000
            + low_field(d[2], 0x40) * 0x1000 + low_field(d[3], 0x40) * 0x40 + low_field(d[4], 0x40)),
        top_bits(w) == 1 ==> (steim2_word_diffs(3, w, false) matches Ok(d) && d.len() == 6 && all_fit(d, 5)
            && word_value(w) % 0x4000_0000 == low_field(d[0], 0x20) * 0x200_0000 + low_field(d[1], 0x20) * 0x10_0000
            + low_field(d[2], 0x20) * 0x8000 + low_field(d[3], 0x20) * 0x400 + low_field(d[4], 0x20) * 0x20
            + low_field(d[5], 0x20)),
        top_bits(w) == 2 ==> (steim2_word_diffs(3, w, false) matches Ok(d) && d.len() == 7 && all_fit(d, 4)
            && word_value(w) % 0x1000_0000 == low_field(d[0], 0x10) * 0x100_0000 + low_field(d[1], 0x10) * 0x10_0000
            + low_field(d[2], 0x10) * 0x1_0000 + low_field(d[3], 0x10) * 0x1000 + low_field(d[4], 0x10) * 0x100
            + low_field(d[5], 0x10) * 0x10 + low_field(d[6], 0x10)),
        top_bits(w) == 3 ==> steim2_word_diffs(3, w, false) == Err::<Seq<i32>, SteimError>(
            SteimError::InvalidDnibForNibble11,
        ),
        steim2_word_diffs(1, w, true) == steim2_word_diffs(1, w, false),
        steim2_word_diffs(2, w, true) == steim2_word_diffs(2, swap32(w), false),
        steim2_word_diffs(3, w, true) == steim2_word_diffs(3, swap32(w), false),
{
    lemma_top_bits(w);
    lemma_4x8(w);
    lemma_1x30(w);
    lemma_2x15(w);
    lemma_3x10(w);
    lemma_5x6(w);
    lemma_6x5(w);
    lemma_7x4(w);
}

/// The code of word `widx` of a frame sits in the two bits of the frame's first word
/// that come `widx` pairs down from the top: word 0 in bits 30 and 31, word 15 in
/// bits 0 and 1.
pub proof fn steim_code_position(words: Seq<i32>, f: int, widx: int)
    requires
        0 <= widx < 16,
    ensures
        nibble_at(words, f, widx, false) as int == (word_value(words[16 * f]) / pow2((30 - 2 * widx) as nat) as int) % 4,
{
    let c = code_word(words, f, false);
    let sh: u32 = (30 - 2 * widx) as u32;
    assert(((c >> sh) & 3) as int == (((c as u32) >> sh) % 4) as int) by (bit_vector)
        requires sh <= 30;
    lemma_u32_shr_is_div(c as u32, sh);
}

/// `d` lies in the range of a two's complement number of `bits` bits.
pub open spec fn fits(d: i32, bits: int) -> bool {
    -half(bits) <= d < half(bits)
}

/// The `count` differences from `ds[i]` on exist and each fits in `bits` bits.
pub open spec fn run_fits(ds: Seq<i32>, i: int, count: int, bits: int) -> bool {
    &&& i + count <= ds.len()
    &&& forall|k: int| i <= k < i + count ==> fits(#[trigger] ds[k], bits)
}

/// The field width of a Steim-2 word that holds `count` differences.
pub open spec fn steim2_width(count: int) -> int {
    if count == 7 {
        4
    } else if count == 6 {
        5
    } else if count == 5 {
        6
    } else if count == 4 {
        8
    } else if count == 3 {
        10
    } else if count == 2 {
        15
    } else {
        30
    }
}

proof fn lemma_width_fits(ds: Seq<i32>, i: int, count: int, bits: int)
    requires
        bits == 4 || bits == 5 || bits == 6 || bits == 8 || bits == 10 || bits == 15 || bits == 16 || bits == 30,
    ensures
        widths_within(ds, i, count, bits) <==> run_fits(ds, i, count, bits),
{
    assert forall|k: int| i <= k < i + count implies (bitwidth_spec(#[trigger] ds[k]) <= bits <==> fits(ds[k], bits)) by {
    }
}

/// Steim-1 packs the differences from `ds[i]` on greedily: four 8-bit differences in
/// a word when the next four fit, else two 16-bit ones when the next two fit, else
/// one; and the chosen word holds exactly those differences.
pub proof fn steim1_pack_choice(ds: Seq<i32>, i: int)
    requires
        0 <= i < ds.len(),
    ensures
        ({
            let p = steim1_pack_at(ds, i);
            &&& p.count == 1 || p.count == 2 || p.count == 4
            &&& p.count == 4 || !run_fits(ds, i, 4, 8)
            &&& p.count >= 2 || !run_fits(ds, i, 2, 16)
            &&& p.count == 4 ==> run_fits(ds, i, 4, 8)
            &&& p.count == 2 ==> run_fits(ds, i, 2, 16)
            &&& word_diffs(SteimLevel::Steim1, p.nib as i32, p.word as i32, false) == Ok::<Seq<i32>, SteimError>(
                ds.subrange(i, i + p.count),
            )
        }),
{
    lemma_width_fits(ds, i, 4, 8);
    lemma_width_fits(ds, i, 2, 16);
    lemma_steim1_pack_at(ds, i);
}

/// Steim-2 packs the differences from `ds[i]` on greedily: the word holds the most of
/// the next differences, up to seven, that all fit the width of a word of that many
/// (7 of 4 bits, 6 of 5, 5 of 6, 4 of 8, 3 of 10, 2 of 15, 1 of 30); there is no word
/// when `ds[i]` does not fit in 30 bits. The chosen word holds exactly those
/// differences.
pub proof fn steim2_pack_choice(ds: Seq<i32>, i: int)
    requires
        0 <= i < ds.len(),
    ensures
        steim2_pack_at(ds, i) is None <==> !fits(ds[i], 30),
        steim2_pack_at(ds, i) matches Some(p) ==> {
            &&& 1 <= p.count <= 7
            &&& run_fits(ds, i, p.count as int, steim2_width(p.count as int))
            &&& forall|k: int| p.count < k <= 7 ==> !run_fits(ds, i, k, #[trigger] steim2_width(k))
            &&& word_diffs(SteimLevel::Steim2, p.nib as i32, p.word as i32, false) == Ok::<Seq<i32>, SteimError>(
                ds.subrange(i, i + p.count),
            )
        },
{
    lemma_width_fits(ds, i, 7, 4);
    lemma_width_fits(ds, i, 6, 5);
    lemma_width_fits(ds, i, 5, 6);
    lemma_width_fits(ds, i, 4, 8);
    lemma_width_fits(ds, i, 3, 10);
    lemma_width_fits(ds, i, 2, 15);
    lemma_width_fits(ds, i, 1, 30);
    assert(run_fits(ds, i, 1, 30) <==> fits(ds[i], 30));
    if steim2_pack_at(ds, i) is Some {
        lemma_steim2_pack_at(ds, i);
        let p = steim2_pack_at(ds, i).unwrap();
        assert forall|k: int| p.count < k <= 7 implies !run_fits(ds, i, k, #[trigger] steim2_width(k)) by {
            assert(k == 2 || k == 3 || k == 4 || k == 5 || k == 6 || k == 7);
        }
    }
}

/// The big-endian 32-bit word at bytes `off .. off + 4` of `data`, signed.
pub open spec fn word_at_bytes(data: Seq<u8>, off: int) -> i32 {
    ((data[off] * 0x100_0000int + data[off + 1] * 0x1_0000int + data[off + 2] * 0x100int + data[off + 3]) as u32) as i32
}

proof fn lemma_integrate_keeps_first(out: Seq<i32>, ds: Seq<i32>, n: nat)
    requires
        out.len() >= 1,
    ensures
        integrate(out, ds, n).len() >= 1,
        integrate(out, ds, n)[0] == out[0],
    decreases ds.len(),
{
    if ds.len() > 0 {
        lemma_integrate_keeps_first(out, ds.drop_last(), n);
    }
}

proof fn lemma_decoded_first(level: SteimLevel, words: Seq<i32>, f: nat, n: nat, swap: bool)
    requires
        f >= 1,
        n >= 1,
    ensures
        decoded_after(level, words, f, n, swap) matches Ok(out) ==> out.len() >= 1 && out[0] == frame_x0(words, swap),
    decreases f,
{
    if f > 1 {
        lemma_decoded_first(level, words, (f - 1) as nat, n, swap);
        match decoded_after(level, words, (f - 1) as nat, n, swap) {
            Ok(out) => {
                if out.len() < n {
                    match crate::steim_spec::frame_diffs(level, words, f - 1, swap, 16) {
                        Ok(ds) => {
                            lemma_integrate_keeps_first(out, crate::steim_spec::counted_diffs(f - 1, ds), n);
                        },
                        Err(_) => {},
                    }
                }
            },
            Err(_) => {},
        }
    } else {
        match crate::steim_spec::frame_diffs(level, words, 0, swap, 16) {
            Ok(ds) => {
                lemma_integrate_keeps_first(seq![frame_x0(words, swap)], crate::steim_spec::counted_diffs(0, ds), n);
            },
            Err(_) => {},
        }
    }
}

/// What a decoded payload starts and ends with: decoding without byte swapping, when
/// it succeeds, gives exactly the announced number of samples, the first of them the
/// forward integration constant, the big-endian word at bytes 4 to 7; with Steim-2 the
/// last of them is the reverse integration constant, the word at bytes 8 to 11.
pub proof fn steim_decode_constants(level: SteimLevel, data: Seq<u8>, n: nat)
    ensures
        steim_decode(level, data, n, false) matches Ok(v) ==> {
            &&& v.len() == n
            &&& n >= 1 ==> v[0] == word_at_bytes(data, 4)
            &&& n >= 1 && level == SteimLevel::Steim2 ==> v.last() == word_at_bytes(data, 8)
        },
{
    if data.len() >= 64 && n >= 1 {
        lemma_decoded_first(level, crate::words::be_words(data), data.len() / 64, n, false);
    }
}

/// Integration: after the samples `out`, each difference of `ds` gives the next
/// sample as the one before plus the difference (modulo 2^32), while fewer than `n`
/// samples are held.
pub proof fn integration_adds_differences(out: Seq<i32>, ds: Seq<i32>, n: nat)
    requires
        out.len() >= 1,
        out.len() + ds.len() <= n,
    ensures
        integrate(out, ds, n).len() == out.len() + ds.len(),
        forall|j: int| 0 <= j < out.len() ==> #[trigger] integrate(out, ds, n)[j] == out[j],
        forall|j: int|
            out.len() <= j < out.len() + ds.len() ==> #[trigger] integrate(out, ds, n)[j] == integrate(out, ds, n)[j
                - 1].wrapping_add(ds[j - out.len()]),
    decreases ds.len(),
{
    if ds.len() > 0 {
        integration_adds_differences(out, ds.drop_last(), n);
        let r = integrate(out, ds.drop_last(), n);
        assert forall|j: int| out.len() <= j < out.len() + ds.len() implies #[trigger] integrate(out, ds, n)[j]
            == integrate(out, ds, n)[j - 1].wrapping_add(ds[j - out.len()]) by {
            if j < out.len() + ds.len() - 1 {
                assert(integrate(out, ds, n)[j] == r[j]);
                assert(integrate(out, ds, n)[j - 1] == r[j - 1]);
                assert(ds.drop_last()[j - out.len()] == ds[j - out.len()]);
            }
        }
    }
}

/// The differences that the encoders pack: the first is `d0`, and each later one is
/// what takes the sample before to the sample (modulo 2^32).
pub proof fn differences_of_samples(samples: Seq<i32>, d0: i32)
    ensures
        diffs_of(samples, d0).len() == samples.len(),
        samples.len() >= 1 ==> diffs_of(samples, d0)[0] == d0,
        forall|i: int|
            1 <= i < samples.len() ==> #[trigger] samples[i - 1].wrapping_add(diffs_of(samples, d0)[i]) == samples[i],
{
    assert forall|i: int| 1 <= i < samples.len() implies #[trigger] samples[i - 1].wrapping_add(
        diffs_of(samples, d0)[i],
    ) == samples[i] by {
        let a = samples[i - 1];
        let b = samples[i];
        assert(a.wrapping_add(b.wrapping_sub(a)) == b) by (bit_vector);
    }
}

} // verus!
