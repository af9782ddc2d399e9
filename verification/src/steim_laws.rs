//! What the Steim codecs promise together: decoding an encoded payload gives back
//! the samples.

use vstd::prelude::*;
use crate::steim_spec::{
    diffs_of, dnib_of, pack2_4x8, pack_1x30, pack_2x15, pack_2x16, pack_3x10, pack_4x8,
    pack_5x6, pack_6x5, pack_7x4, steim1_pack_at, steim1_packs, steim1_word_diffs,
    steim2_pack_at, steim2_packs, steim2_word_diffs, unpack, widths_within, word_diffs, Pack,
    SteimLevel, code_word_upto, counted_diffs, decoded_after, first_data_word, frame_count,
    frame_diffs, frame_x0, frame_xn, integrate, layout, layout_word, nib_in, nibble_at, slot_of,
    steim_decode, steim1_encode, steim2_encode,
};
use crate::words::{be_u32, be_word_at, be_words, u32_be_bytes, words_be_bytes};
use crate::utils::{bitwidth_spec, lemma_sign_extend_shift, sign_extend_shift};

verus! {

broadcast use lemma_sign_extend_shift;

/// Steim-1: a word packed from four 8-bit differences gives them back.
proof fn lemma_word_4x8(ds: Seq<i32>, i: int)
    requires
        widths_within(ds, i, 4, 8),
        i >= 0,
    ensures
        steim1_word_diffs(1, pack_4x8(ds, i) as i32, false) == ds.subrange(i, i + 4),
{
    let (a, b, c, d) = (ds[i], ds[i + 1], ds[i + 2], ds[i + 3]);
    assert(bitwidth_spec(ds[i]) <= 8 && bitwidth_spec(ds[i + 1]) <= 8 && bitwidth_spec(ds[i + 2]) <= 8
        && bitwidth_spec(ds[i + 3]) <= 8);
    let w = pack_4x8(ds, i);
    assert(w == ((a as u32 & 0xFF) << 24u32) | ((b as u32 & 0xFF) << 16u32) | ((c as u32 & 0xFF) << 8u32) | (d as u32
        & 0xFF));
    assert({
        let v = w as i32;
        &&& sign_extend_shift((v >> 24u32) & 0xFF, 8) == a
        &&& sign_extend_shift((v >> 16u32) & 0xFF, 8) == b
        &&& sign_extend_shift((v >> 8u32) & 0xFF, 8) == c
        &&& sign_extend_shift((v >> 0u32) & 0xFF, 8) == d
    }) by (bit_vector)
        requires
            -128 <= a < 128,
            -128 <= b < 128,
            -128 <= c < 128,
            -128 <= d < 128,
            w == ((a as u32 & 0xFF) << 24u32) | ((b as u32 & 0xFF) << 16u32) | ((c as u32 & 0xFF) << 8u32) | (d as u32
                & 0xFF),
    ;
    assert(steim1_word_diffs(1, w as i32, false) =~= ds.subrange(i, i + 4));
}


/// A word packed from 2 differences of 16 bits gives them back.
proof fn lemma_word_2x16(ds: Seq<i32>, i: int)
    requires
        widths_within(ds, i, 2, 16),
        i >= 0,
    ensures
        steim1_word_diffs(2, pack_2x16(ds, i) as i32, false) == ds.subrange(i, i + 2),
{
    let (a, b) = (ds[i], ds[i + 1]);
    assert(bitwidth_spec(ds[i + 0]) <= 16 && bitwidth_spec(ds[i + 1]) <= 16);
    let w = pack_2x16(ds, i);
    assert(w == ((((a as u32) & 0xFFFF)) << 16u32) | (((b as u32) & 0xFFFF)));
    assert({
        let v = w as i32;
        &&& sign_extend_shift((v >> 16u32) & 0xFFFF, 16) == a
        &&& sign_extend_shift((v >> 0u32) & 0xFFFF, 16) == b
    }) by (bit_vector)
        requires
            -32768 <= a < 32768,
            -32768 <= b < 32768,
            w == ((((a as u32) & 0xFFFF)) << 16u32) | (((b as u32) & 0xFFFF)),
    ;
    assert(steim1_word_diffs(2, w as i32, false) =~= ds.subrange(i, i + 2));
}

/// A word packed from 7 differences of 4 bits gives them back.
proof fn lemma_word2_7x4(ds: Seq<i32>, i: int)
    requires
        widths_within(ds, i, 7, 4),
        i >= 0,
    ensures
        steim2_word_diffs(3, pack_7x4(ds, i) as i32, false) == Ok::<Seq<i32>, crate::steim_spec::SteimError>(ds.subrange(i, i + 7)),
{
    let (a, b, c, d, e, f, g) = (ds[i], ds[i + 1], ds[i + 2], ds[i + 3], ds[i + 4], ds[i + 5], ds[i + 6]);
    assert(bitwidth_spec(ds[i + 0]) <= 4 && bitwidth_spec(ds[i + 1]) <= 4 && bitwidth_spec(ds[i + 2]) <= 4 && bitwidth_spec(ds[i + 3]) <= 4 && bitwidth_spec(ds[i + 4]) <= 4 && bitwidth_spec(ds[i + 5]) <= 4 && bitwidth_spec(ds[i + 6]) <= 4);
    let w = pack_7x4(ds, i);
    assert(w == (((g as u32) & 0xF)) | ((((f as u32) & 0xF)) << 4u32) | ((((e as u32) & 0xF)) << 8u32) | ((((d as u32) & 0xF)) << 12u32) | ((((c as u32) & 0xF)) << 16u32) | ((((b as u32) & 0xF)) << 20u32) | ((((a as u32) & 0xF)) << 24u32) | (2u32 << 30u32));
    assert({
        let v = w as i32;
        &&& sign_extend_shift((v >> 24u32) & 0xF, 4) == a
        &&& sign_extend_shift((v >> 20u32) & 0xF, 4) == b
        &&& sign_extend_shift((v >> 16u32) & 0xF, 4) == c
        &&& sign_extend_shift((v >> 12u32) & 0xF, 4) == d
        &&& sign_extend_shift((v >> 8u32) & 0xF, 4) == e
        &&& sign_extend_shift((v >> 4u32) & 0xF, 4) == f
        &&& sign_extend_shift((v >> 0u32) & 0xF, 4) == g
        &&& (v >> 30u32) & 3 == 2
    }) by (bit_vector)
        requires
            -8 <= a < 8,
            -8 <= b < 8,
            -8 <= c < 8,
            -8 <= d < 8,
            -8 <= e < 8,
            -8 <= f < 8,
            -8 <= g < 8,
            w == (((g as u32) & 0xF)) | ((((f as u32) & 0xF)) << 4u32) | ((((e as u32) & 0xF)) << 8u32) | ((((d as u32) & 0xF)) << 12u32) | ((((c as u32) & 0xF)) << 16u32) | ((((b as u32) & 0xF)) << 20u32) | ((((a as u32) & 0xF)) << 24u32) | (2u32 << 30u32),
    ;
    assert(dnib_of(w as i32) == 2);
    assert(unpack(w as i32, 7, 4) =~= ds.subrange(i, i + 7));

}

/// A word packed from 6 differences of 5 bits gives them back.
proof fn lemma_word2_6x5(ds: Seq<i32>, i: int)
    requires
        widths_within(ds, i, 6, 5),
        i >= 0,
    ensures
        steim2_word_diffs(3, pack_6x5(ds, i) as i32, false) == Ok::<Seq<i32>, crate::steim_spec::SteimError>(ds.subrange(i, i + 6)),
{
    let (a, b, c, d, e, f) = (ds[i], ds[i + 1], ds[i + 2], ds[i + 3], ds[i + 4], ds[i + 5]);
    assert(bitwidth_spec(ds[i + 0]) <= 5 && bitwidth_spec(ds[i + 1]) <= 5 && bitwidth_spec(ds[i + 2]) <= 5 && bitwidth_spec(ds[i + 3]) <= 5 && bitwidth_spec(ds[i + 4]) <= 5 && bitwidth_spec(ds[i + 5]) <= 5);
    let w = pack_6x5(ds, i);
    assert(w == (((f as u32) & 0x1F)) | ((((e as u32) & 0x1F)) << 5u32) | ((((d as u32) & 0x1F)) << 10u32) | ((((c as u32) & 0x1F)) << 15u32) | ((((b as u32) & 0x1F)) << 20u32) | ((((a as u32) & 0x1F)) << 25u32) | (1u32 << 30u32));
    assert({
        let v = w as i32;
        &&& sign_extend_shift((v >> 25u32) & 0x1F, 5) == a
        &&& sign_extend_shift((v >> 20u32) & 0x1F, 5) == b
        &&& sign_extend_shift((v >> 15u32) & 0x1F, 5) == c
        &&& sign_extend_shift((v >> 10u32) & 0x1F, 5) == d
        &&& sign_extend_shift((v >> 5u32) & 0x1F, 5) == e
        &&& sign_extend_shift((v >> 0u32) & 0x1F, 5) == f
        &&& (v >> 30u32) & 3 == 1
    }) by (bit_vector)
        requires
            -16 <= a < 16,
            -16 <= b < 16,
            -16 <= c < 16,
            -16 <= d < 16,
            -16 <= e < 16,
            -16 <= f < 16,
            w == (((f as u32) & 0x1F)) | ((((e as u32) & 0x1F)) << 5u32) | ((((d as u32) & 0x1F)) << 10u32) | ((((c as u32) & 0x1F)) << 15u32) | ((((b as u32) & 0x1F)) << 20u32) | ((((a as u32) & 0x1F)) << 25u32) | (1u32 << 30u32),
    ;
    assert(dnib_of(w as i32) == 1);
    assert(unpack(w as i32, 6, 5) =~= ds.subrange(i, i + 6));

}

/// A word packed from 5 differences of 6 bits gives them back.
proof fn lemma_word2_5x6(ds: Seq<i32>, i: int)
    requires
        widths_within(ds, i, 5, 6),
        i >= 0,
    ensures
        steim2_word_diffs(3, pack_5x6(ds, i) as i32, false) == Ok::<Seq<i32>, crate::steim_spec::SteimError>(ds.subrange(i, i + 5)),
{
    let (a, b, c, d, e) = (ds[i], ds[i + 1], ds[i + 2], ds[i + 3], ds[i + 4]);
    assert(bitwidth_spec(ds[i + 0]) <= 6 && bitwidth_spec(ds[i + 1]) <= 6 && bitwidth_spec(ds[i + 2]) <= 6 && bitwidth_spec(ds[i + 3]) <= 6 && bitwidth_spec(ds[i + 4]) <= 6);
    let w = pack_5x6(ds, i);
    assert(w == (((e as u32) & 0x3F)) | ((((d as u32) & 0x3F)) << 6u32) | ((((c as u32) & 0x3F)) << 12u32) | ((((b as u32) & 0x3F)) << 18u32) | ((((a as u32) & 0x3F)) << 24u32));
    assert({
        let v = w as i32;
        &&& sign_extend_shift((v >> 24u32) & 0x3F, 6) == a
        &&& sign_extend_shift((v >> 18u32) & 0x3F, 6) == b
        &&& sign_extend_shift((v >> 12u32) & 0x3F, 6) == c
        &&& sign_extend_shift((v >> 6u32) & 0x3F, 6) == d
        &&& sign_extend_shift((v >> 0u32) & 0x3F, 6) == e
        &&& (v >> 30u32) & 3 == 0
    }) by (bit_vector)
        requires
            -32 <= a < 32,
            -32 <= b < 32,
            -32 <= c < 32,
            -32 <= d < 32,
            -32 <= e < 32,
            w == (((e as u32) & 0x3F)) | ((((d as u32) & 0x3F)) << 6u32) | ((((c as u32) & 0x3F)) << 12u32) | ((((b as u32) & 0x3F)) << 18u32) | ((((a as u32) & 0x3F)) << 24u32),
    ;
    assert(dnib_of(w as i32) == 0);
    assert(unpack(w as i32, 5, 6) =~= ds.subrange(i, i + 5));

}

/// A word packed from 4 differences of 8 bits gives them back.
proof fn lemma_word2_4x8(ds: Seq<i32>, i: int)
    requires
        widths_within(ds, i, 4, 8),
        i >= 0,
    ensures
        steim2_word_diffs(1, pack2_4x8(ds, i) as i32, false) == Ok::<Seq<i32>, crate::steim_spec::SteimError>(ds.subrange(i, i + 4)),
{
    let (a, b, c, d) = (ds[i], ds[i + 1], ds[i + 2], ds[i + 3]);
    assert(bitwidth_spec(ds[i + 0]) <= 8 && bitwidth_spec(ds[i + 1]) <= 8 && bitwidth_spec(ds[i + 2]) <= 8 && bitwidth_spec(ds[i + 3]) <= 8);
    let w = pack2_4x8(ds, i);
    assert(w == (((d as u32) & 0xFF)) | ((((c as u32) & 0xFF)) << 8u32) | ((((b as u32) & 0xFF)) << 16u32) | ((((a as u32) & 0xFF)) << 24u32));
    assert({
        let v = w as i32;
        &&& sign_extend_shift((v >> 24u32) & 0xFF, 8) == a
        &&& sign_extend_shift((v >> 16u32) & 0xFF, 8) == b
        &&& sign_extend_shift((v >> 8u32) & 0xFF, 8) == c
        &&& sign_extend_shift((v >> 0u32) & 0xFF, 8) == d
    }) by (bit_vector)
        requires
            -128 <= a < 128,
            -128 <= b < 128,
            -128 <= c < 128,
            -128 <= d < 128,
            w == (((d as u32) & 0xFF)) | ((((c as u32) & 0xFF)) << 8u32) | ((((b as u32) & 0xFF)) << 16u32) | ((((a as u32) & 0xFF)) << 24u32),
    ;
    assert(unpack(w as i32, 4, 8) =~= ds.subrange(i, i + 4));

}

/// A word packed from 3 differences of 10 bits gives them back.
proof fn lemma_word2_3x10(ds: Seq<i32>, i: int)
    requires
        widths_within(ds, i, 3, 10),
        i >= 0,
    ensures
        steim2_word_diffs(2, pack_3x10(ds, i) as i32, false) == Ok::<Seq<i32>, crate::steim_spec::SteimError>(ds.subrange(i, i + 3)),
{
    let (a, b, c) = (ds[i], ds[i + 1], ds[i + 2]);
    assert(bitwidth_spec(ds[i + 0]) <= 10 && bitwidth_spec(ds[i + 1]) <= 10 && bitwidth_spec(ds[i + 2]) <= 10);
    let w = pack_3x10(ds, i);
    assert(w == (((c as u32) & 0x3FF)) | ((((b as u32) & 0x3FF)) << 10u32) | ((((a as u32) & 0x3FF)) << 20u32) | (3u32 << 30u32));
    assert({
        let v = w as i32;
        &&& sign_extend_shift((v >> 20u32) & 0x3FF, 10) == a
        &&& sign_extend_shift((v >> 10u32) & 0x3FF, 10) == b
        &&& sign_extend_shift((v >> 0u32) & 0x3FF, 10) == c
        &&& (v >> 30u32) & 3 == 3
    }) by (bit_vector)
        requires
            -512 <= a < 512,
            -512 <= b < 512,
            -512 <= c < 512,
            w == (((c as u32) & 0x3FF)) | ((((b as u32) & 0x3FF)) << 10u32) | ((((a as u32) & 0x3FF)) << 20u32) | (3u32 << 30u32),
    ;
    assert(dnib_of(w as i32) == 3);
    assert(unpack(w as i32, 3, 10) =~= ds.subrange(i, i + 3));

}

/// A word packed from 2 differences of 15 bits gives them back.
proof fn lemma_word2_2x15(ds: Seq<i32>, i: int)
    requires
        widths_within(ds, i, 2, 15),
        i >= 0,
    ensures
        steim2_word_diffs(2, pack_2x15(ds, i) as i32, false) == Ok::<Seq<i32>, crate::steim_spec::SteimError>(ds.subrange(i, i + 2)),
{
    let (a, b) = (ds[i], ds[i + 1]);
    assert(bitwidth_spec(ds[i + 0]) <= 15 && bitwidth_spec(ds[i + 1]) <= 15);
    let w = pack_2x15(ds, i);
    assert(w == (((b as u32) & 0x7FFF)) | ((((a as u32) & 0x7FFF)) << 15u32) | (2u32 << 30u32));
    assert({
        let v = w as i32;
        &&& sign_extend_shift((v >> 15u32) & 0x7FFF, 15) == a
        &&& sign_extend_shift((v >> 0u32) & 0x7FFF, 15) == b
        &&& (v >> 30u32) & 3 == 2
    }) by (bit_vector)
        requires
            -16384 <= a < 16384,
            -16384 <= b < 16384,
            w == (((b as u32) & 0x7FFF)) | ((((a as u32) & 0x7FFF)) << 15u32) | (2u32 << 30u32),
    ;
    assert(dnib_of(w as i32) == 2);
    assert(unpack(w as i32, 2, 15) =~= ds.subrange(i, i + 2));

}

/// A word packed from 1 differences of 30 bits gives them back.
proof fn lemma_word2_1x30(ds: Seq<i32>, i: int)
    requires
        widths_within(ds, i, 1, 30),
        i >= 0,
    ensures
        steim2_word_diffs(2, pack_1x30(ds, i) as i32, false) == Ok::<Seq<i32>, crate::steim_spec::SteimError>(ds.subrange(i, i + 1)),
{
    let a = ds[i];
    assert(bitwidth_spec(ds[i + 0]) <= 30);
    let w = pack_1x30(ds, i);
    assert(w == (((a as u32) & 0x3FFF_FFFF)) | (1u32 << 30u32));
    assert({
        let v = w as i32;
        &&& sign_extend_shift((v >> 0u32) & 0x3FFF_FFFF, 30) == a
        &&& (v >> 30u32) & 3 == 1
    }) by (bit_vector)
        requires
            -536870912 <= a < 536870912,
            w == (((a as u32) & 0x3FFF_FFFF)) | (1u32 << 30u32),
    ;
    assert(dnib_of(w as i32) == 1);
    assert(unpack(w as i32, 1, 30) =~= ds.subrange(i, i + 1));

}

/// Steim-1: a full word holding one difference gives it back.
proof fn lemma_word_1x32(ds: Seq<i32>, i: int)
    requires
        0 <= i < ds.len(),
    ensures
        steim1_word_diffs(3, ds[i] as u32 as i32, false) == ds.subrange(i, i + 1),
{
    let a = ds[i];
    assert(sign_extend_shift(a as u32 as i32, 32) == a) by (bit_vector);
    assert(steim1_word_diffs(3, a as u32 as i32, false) =~= ds.subrange(i, i + 1));
}


/// The differences that a packed word holds.
pub open spec fn pack_diffs(level: SteimLevel, p: Pack) -> Seq<i32> {
    match word_diffs(level, p.nib as i32, p.word as i32, false) {
        Ok(d) => d,
        Err(_) => seq![],
    }
}

/// A packed word with a code from 1 to 3 whose differences decode.
pub open spec fn good_pack(level: SteimLevel, p: Pack) -> bool {
    &&& 1 <= p.nib <= 3
    &&& word_diffs(level, p.nib as i32, p.word as i32, false) is Ok
}

/// The differences that a sequence of packed words holds, in order.
pub open spec fn packs_diffs(level: SteimLevel, ps: Seq<Pack>) -> Seq<i32>
    decreases ps.len(),
{
    if ps.len() == 0 {
        seq![]
    } else {
        packs_diffs(level, ps.drop_last()) + pack_diffs(level, ps.last())
    }
}

proof fn lemma_packs_diffs_concat(level: SteimLevel, a: Seq<Pack>, b: Seq<Pack>)
    ensures
        packs_diffs(level, a + b) == packs_diffs(level, a) + packs_diffs(level, b),
    decreases b.len(),
{
    if b.len() == 0 {
        assert(a + b =~= a);
        assert(packs_diffs(level, a) + seq![] =~= packs_diffs(level, a));
    } else {
        assert((a + b).drop_last() =~= a + b.drop_last());
        lemma_packs_diffs_concat(level, a, b.drop_last());
        assert(packs_diffs(level, a) + packs_diffs(level, b.drop_last()) + pack_diffs(level, b.last())
            =~= packs_diffs(level, a) + (packs_diffs(level, b.drop_last()) + pack_diffs(level, b.last())));
    }
}

proof fn lemma_packs_diffs_cons(level: SteimLevel, p: Pack, rest: Seq<Pack>)
    ensures
        packs_diffs(level, seq![p] + rest) == pack_diffs(level, p) + packs_diffs(level, rest),
{
    lemma_packs_diffs_concat(level, seq![p], rest);
    let one = seq![p];
    assert(one.drop_last() =~= Seq::<Pack>::empty());
    assert(one.last() == p);
    assert(packs_diffs(level, one.drop_last()) =~= Seq::<i32>::empty());
    assert(packs_diffs(level, one) == packs_diffs(level, one.drop_last()) + pack_diffs(level, p));
    assert(Seq::<i32>::empty() + pack_diffs(level, p) =~= pack_diffs(level, p));
}

/// Steim-1: the word chosen at `ds[i]` holds the next `count` differences.
pub(crate) proof fn lemma_steim1_pack_at(ds: Seq<i32>, i: int)
    requires
        0 <= i < ds.len(),
    ensures
        ({
            let p = steim1_pack_at(ds, i);
            &&& 1 <= p.count
            &&& i + p.count <= ds.len()
            &&& good_pack(SteimLevel::Steim1, p)
            &&& pack_diffs(SteimLevel::Steim1, p) == ds.subrange(i, i + p.count)
        }),
{
    if widths_within(ds, i, 4, 8) {
        lemma_word_4x8(ds, i);
    } else if widths_within(ds, i, 2, 16) {
        lemma_word_2x16(ds, i);
    } else {
        lemma_word_1x32(ds, i);
    }
}

/// Steim-2: the word chosen at `ds[i]`, when there is one, holds the next `count` differences.
pub(crate) proof fn lemma_steim2_pack_at(ds: Seq<i32>, i: int)
    requires
        0 <= i < ds.len(),
        steim2_pack_at(ds, i) is Some,
    ensures
        ({
            let p = steim2_pack_at(ds, i).unwrap();
            &&& 1 <= p.count
            &&& i + p.count <= ds.len()
            &&& good_pack(SteimLevel::Steim2, p)
            &&& pack_diffs(SteimLevel::Steim2, p) == ds.subrange(i, i + p.count)
        }),
{
    if widths_within(ds, i, 7, 4) {
        lemma_word2_7x4(ds, i);
    } else if widths_within(ds, i, 6, 5) {
        lemma_word2_6x5(ds, i);
    } else if widths_within(ds, i, 5, 6) {
        lemma_word2_5x6(ds, i);
    } else if widths_within(ds, i, 4, 8) {
        lemma_word2_4x8(ds, i);
    } else if widths_within(ds, i, 3, 10) {
        lemma_word2_3x10(ds, i);
    } else if widths_within(ds, i, 2, 15) {
        lemma_word2_2x15(ds, i);
    } else {
        lemma_word2_1x30(ds, i);
    }
}

/// Steim-1: the words that pack `ds[i..]` hold exactly `ds[i..]`.
proof fn lemma_steim1_packs(ds: Seq<i32>, i: int)
    requires
        0 <= i <= ds.len(),
    ensures
        packs_diffs(SteimLevel::Steim1, steim1_packs(ds, i)) == ds.subrange(i, ds.len() as int),
        forall|k: int| 0 <= k < steim1_packs(ds, i).len() ==> good_pack(SteimLevel::Steim1, #[trigger] steim1_packs(ds, i)[k]),
        steim1_packs(ds, i).len() <= ds.len() - i,
    decreases ds.len() - i,
{
    if i < ds.len() {
        let p = steim1_pack_at(ds, i);
        lemma_steim1_pack_at(ds, i);
        lemma_steim1_packs(ds, i + p.count);
        let rest = steim1_packs(ds, i + p.count);
        lemma_packs_diffs_cons(SteimLevel::Steim1, p, rest);
        assert(ds.subrange(i, i + p.count) + ds.subrange(i + p.count, ds.len() as int) =~= ds.subrange(i, ds.len() as int));
        assert forall|k: int| 0 <= k < steim1_packs(ds, i).len() implies good_pack(SteimLevel::Steim1, #[trigger] steim1_packs(ds, i)[k]) by {
            if k > 0 {
                assert(steim1_packs(ds, i)[k] == rest[k - 1]);
            }
        }
    } else {
        assert(ds.subrange(i, ds.len() as int) =~= seq![]);
    }
}

/// Steim-2: the words that pack `ds[i..]`, when they exist, hold exactly `ds[i..]`.
proof fn lemma_steim2_packs(ds: Seq<i32>, i: int)
    requires
        0 <= i <= ds.len(),
        steim2_packs(ds, i) is Some,
    ensures
        packs_diffs(SteimLevel::Steim2, steim2_packs(ds, i).unwrap()) == ds.subrange(i, ds.len() as int),
        forall|k: int| 0 <= k < steim2_packs(ds, i).unwrap().len() ==> good_pack(SteimLevel::Steim2, #[trigger] steim2_packs(ds, i).unwrap()[k]),
        steim2_packs(ds, i).unwrap().len() <= ds.len() - i,
    decreases ds.len() - i,
{
    if i < ds.len() {
        let p = steim2_pack_at(ds, i).unwrap();
        lemma_steim2_pack_at(ds, i);
        lemma_steim2_packs(ds, i + p.count);
        let rest = steim2_packs(ds, i + p.count).unwrap();
        lemma_packs_diffs_cons(SteimLevel::Steim2, p, rest);
        assert(ds.subrange(i, i + p.count) + ds.subrange(i + p.count, ds.len() as int) =~= ds.subrange(i, ds.len() as int));
        assert forall|k: int| 0 <= k < steim2_packs(ds, i).unwrap().len() implies good_pack(SteimLevel::Steim2, #[trigger] steim2_packs(ds, i).unwrap()[k]) by {
            if k > 0 {
                assert(steim2_packs(ds, i).unwrap()[k] == rest[k - 1]);
            }
        }
    } else {
        assert(ds.subrange(i, ds.len() as int) =~= seq![]);
    }
}

/// Adding back a difference taken modulo 2^32 restores the value.
proof fn lemma_wrapping_add_sub(a: i32, b: i32)
    ensures
        a.wrapping_add(b.wrapping_sub(a)) == b,
{
}

/// Running sums of the differences of `samples` give the samples back.
proof fn lemma_integrate_diffs(samples: Seq<i32>, d0: i32, m: int, k: int)
    requires
        1 <= m,
        0 <= k,
        m + k <= samples.len(),
    ensures
        crate::steim_spec::integrate(samples.take(m), diffs_of(samples, d0).subrange(m, m + k), samples.len())
            == samples.take(m + k),
    decreases k,
{
    let ds = diffs_of(samples, d0);
    if k > 0 {
        assert(ds.subrange(m, m + k).drop_last() =~= ds.subrange(m, m + k - 1));
        lemma_integrate_diffs(samples, d0, m, k - 1);
        lemma_wrapping_add_sub(samples[m + k - 2], samples[m + k - 1]);
        assert(samples.take(m + k - 1).push(samples[m + k - 1]) =~= samples.take(m + k));
    } else {
        assert(ds.subrange(m, m) =~= seq![]);
    }
}


/// The big-endian bytes of a word read back give the word.
proof fn lemma_be_u32_bytes(u: u32)
    ensures
        be_u32(u32_be_bytes(u)[0], u32_be_bytes(u)[1], u32_be_bytes(u)[2], u32_be_bytes(u)[3]) == u,
{
    let b = u32_be_bytes(u);
    assert(b[0] == u / 0x0100_0000 && b[1] == (u / 0x0001_0000) % 0x100 && b[2] == (u / 0x100) % 0x100 && b[3] == u
        % 0x100);
    assert((u / 0x0100_0000) * 0x0100_0000 + ((u / 0x0001_0000) % 0x100) * 0x0001_0000 + ((u / 0x100) % 0x100) * 0x100
        + u % 0x100 == u) by (nonlinear_arith);
}

/// Words written big-endian and read back are the same words.
proof fn lemma_words_bytes_roundtrip(ws: Seq<u32>)
    ensures
        words_be_bytes(ws).len() == 4 * ws.len(),
        be_words(words_be_bytes(ws)).len() == ws.len(),
        forall|j: int| 0 <= j < ws.len() ==> #[trigger] be_words(words_be_bytes(ws))[j] == ws[j] as i32,
{
    let bytes = words_be_bytes(ws);
    assert(bytes.len() / 4 == ws.len()) by (nonlinear_arith)
        requires bytes.len() == 4 * ws.len();
    assert forall|j: int| 0 <= j < ws.len() implies #[trigger] be_words(bytes)[j] == ws[j] as i32 by {
        assert((4 * j) / 4 == j && (4 * j) % 4 == 0 && (4 * j + 1) / 4 == j && (4 * j + 1) % 4 == 1 && (4 * j + 2)
            / 4 == j && (4 * j + 2) % 4 == 2 && (4 * j + 3) / 4 == j && (4 * j + 3) % 4 == 3) by (nonlinear_arith);
        assert(4 * j + 3 < bytes.len()) by (nonlinear_arith)
            requires 0 <= j < ws.len(), bytes.len() == 4 * ws.len();
        assert(bytes[4 * j] == u32_be_bytes(ws[j])[0]);
        assert(bytes[4 * j + 1] == u32_be_bytes(ws[j])[1]);
        assert(bytes[4 * j + 2] == u32_be_bytes(ws[j])[2]);
        assert(bytes[4 * j + 3] == u32_be_bytes(ws[j])[3]);
        lemma_be_u32_bytes(ws[j]);
    }
}

/// Setting a 2-bit code in a code word leaves the other codes alone.
proof fn lemma_code_bits_step(c: u32, n: u32, sp: u32, sq: u32)
    requires
        n <= 3,
        sp <= 30,
        sq <= 30,
        sp % 2 == 0,
        sq % 2 == 0,
    ensures
        ((c | (n << sp)) >> sq) & 3 == if sp == sq { ((c >> sq) & 3) | n } else { (c >> sq) & 3 },
{
    assert(((c | (n << sp)) >> sq) & 3 == if sp == sq { ((c >> sq) & 3) | n } else { (c >> sq) & 3 }) by (bit_vector)
        requires
            n <= 3,
            sp <= 30,
            sq <= 30,
            sp % 2 == 0,
            sq % 2 == 0,
    ;
}

/// A code read from the word as a signed value is the same code.
proof fn lemma_code_bits_signed(c: u32, s: u32)
    requires
        s <= 30,
    ensures
        ((c as i32) >> s) & 3 == ((c >> s) & 3) as i32,
        (0u32 >> s) & 3 == 0,
        ((c >> s) & 3) <= 3,
        0 | ((c >> s) & 3) == (c >> s) & 3,
{
    assert(((c as i32) >> s) & 3 == ((c >> s) & 3) as i32) by (bit_vector)
        requires s <= 30;
    assert((0u32 >> s) & 3 == 0) by (bit_vector);
    assert(((c >> s) & 3) <= 3) by (bit_vector);
    assert(0 | ((c >> s) & 3) == (c >> s) & 3) by (bit_vector);
}

/// The code word of frame `f` holds, at each word, the code of the packed word there.
proof fn lemma_code_word_bits(packs: Seq<Pack>, f: int, pos: int, q: int)
    requires
        f >= 0,
        first_data_word(f) <= pos <= 16,
        first_data_word(f) <= q < 16,
        forall|k: int| 0 <= k < packs.len() ==> #[trigger] packs[k].nib <= 3,
    ensures
        (code_word_upto(packs, f, pos) >> ((30 - 2 * q) as u32)) & 3 == if q < pos { nib_in(packs, f, q) } else { 0 },
    decreases pos,
{
    let sq = (30 - 2 * q) as u32;
    if pos <= first_data_word(f) {
        lemma_code_bits_signed(0, sq);
    } else {
        lemma_code_word_bits(packs, f, pos - 1, q);
        let c = code_word_upto(packs, f, pos - 1);
        let n = nib_in(packs, f, pos - 1);
        let sp = (30 - 2 * (pos - 1)) as u32;
        lemma_code_bits_step(c, n, sp, sq);
        if q == pos - 1 {
            assert(sp == sq);
            assert((c >> sq) & 3 == 0);
            assert(0 | n == n) by (bit_vector)
                requires n <= 3;
        } else {
            assert(sp != sq);
        }
    }
}


/// `x`, or `p` when `x` is larger.
pub open spec fn clip(x: int, p: int) -> int {
    if x < p {
        x
    } else {
        p
    }
}

/// The index of the first packed word of frame `f`.
pub open spec fn frame_lo(f: int) -> int {
    slot_of(f, first_data_word(f))
}

proof fn lemma_div_mod_16(f: int, pos: int)
    requires
        f >= 0,
        0 <= pos < 16,
    ensures
        (16 * f + pos) / 16 == f,
        (16 * f + pos) % 16 == pos,
{
    assert((16 * f + pos) / 16 == f && (16 * f + pos) % 16 == pos) by (nonlinear_arith)
        requires f >= 0, 0 <= pos < 16;
}

/// The words of the laid-out frames, read back from their bytes.
pub open spec fn layout_read_back(packs: Seq<Pack>, x0: u32, xn: u32) -> Seq<i32> {
    be_words(words_be_bytes(layout(packs, x0, xn)))
}

/// Word `pos` of frame `f`, read back from the bytes, is the laid-out word.
proof fn lemma_read_back_word(packs: Seq<Pack>, x0: u32, xn: u32, f: int, pos: int)
    requires
        0 <= f < frame_count(packs.len()),
        0 <= pos < 16,
    ensures
        16 * f + pos < layout_read_back(packs, x0, xn).len(),
        layout_read_back(packs, x0, xn)[16 * f + pos] == layout_word(packs, x0, xn, 16 * f + pos) as i32,
        layout_read_back(packs, x0, xn).len() == 16 * frame_count(packs.len()),
{
    let l = layout(packs, x0, xn);
    lemma_words_bytes_roundtrip(l);
    lemma_div_mod_16(f, pos);
    assert(16 * f + pos < 16 * frame_count(packs.len())) by (nonlinear_arith)
        requires 0 <= f < frame_count(packs.len()), 0 <= pos < 16;
}

/// The code of word `q` of frame `f`, read back from the bytes, is that of its packed word.
proof fn lemma_read_back_nibble(packs: Seq<Pack>, x0: u32, xn: u32, f: int, q: int)
    requires
        0 <= f < frame_count(packs.len()),
        first_data_word(f) <= q < 16,
        forall|k: int| 0 <= k < packs.len() ==> #[trigger] packs[k].nib <= 3,
    ensures
        nibble_at(layout_read_back(packs, x0, xn), f, q, false) == nib_in(packs, f, q) as i32,
{
    lemma_read_back_word(packs, x0, xn, f, 0);
    lemma_div_mod_16(f, 0);
    let c = code_word_upto(packs, f, 16);
    lemma_code_word_bits(packs, f, 16, q);
    lemma_code_bits_signed(c, (30 - 2 * q) as u32);
}

/// The data word `pos` of frame `f`, read back: the packed word there, or 0.
proof fn lemma_read_back_data_word(packs: Seq<Pack>, x0: u32, xn: u32, f: int, pos: int)
    requires
        0 <= f < frame_count(packs.len()),
        first_data_word(f) <= pos < 16,
    ensures
        16 * f + pos < layout_read_back(packs, x0, xn).len(),
        layout_read_back(packs, x0, xn)[16 * f + pos] == (if slot_of(f, pos) < packs.len() {
            packs[slot_of(f, pos)].word
        } else {
            0u32
        }) as i32,
        slot_of(f, pos) >= 0,
{
    lemma_read_back_word(packs, x0, xn, f, pos);
    lemma_div_mod_16(f, pos);
}

/// The differences of the word at `pos` of frame `f`: those of its packed word, or none.
proof fn lemma_read_back_word_diffs(level: SteimLevel, packs: Seq<Pack>, x0: u32, xn: u32, f: int, pos: int)
    requires
        0 <= f < frame_count(packs.len()),
        first_data_word(f) <= pos < 16,
        forall|k: int| 0 <= k < packs.len() ==> good_pack(level, #[trigger] packs[k]),
    ensures
        word_diffs(level, nibble_at(layout_read_back(packs, x0, xn), f, pos, false), layout_read_back(packs, x0, xn)[16 * f + pos], false)
            == Ok::<Seq<i32>, crate::steim_spec::SteimError>(
            if slot_of(f, pos) < packs.len() { pack_diffs(level, packs[slot_of(f, pos)]) } else { seq![] },
        ),
{
    assert forall|k: int| 0 <= k < packs.len() implies #[trigger] packs[k].nib <= 3 by {
        assert(good_pack(level, packs[k]));
    }
    lemma_read_back_nibble(packs, x0, xn, f, pos);
    lemma_read_back_data_word(packs, x0, xn, f, pos);
    let s = slot_of(f, pos);
    if s < packs.len() {
        assert(good_pack(level, packs[s]));
    }
}

/// Frame `f` of the laid-out words decodes to the differences of its packed words.
#[verifier::rlimit(30)]
proof fn lemma_frame_diffs_layout(level: SteimLevel, packs: Seq<Pack>, x0: u32, xn: u32, f: int, upto: int)
    requires
        0 <= f < frame_count(packs.len()),
        first_data_word(f) <= upto <= 16,
        forall|k: int| 0 <= k < packs.len() ==> good_pack(level, #[trigger] packs[k]),
    ensures
        frame_diffs(level, layout_read_back(packs, x0, xn), f, false, upto) == Ok::<Seq<i32>, crate::steim_spec::SteimError>(
            packs_diffs(level, packs.subrange(clip(frame_lo(f), packs.len() as int), clip(slot_of(f, upto), packs.len() as int))),
        ),
    decreases upto,
{
    let w = layout_read_back(packs, x0, xn);
    let np = packs.len() as int;
    let lo = clip(frame_lo(f), np);
    if upto <= first_data_word(f) {
        assert(packs.subrange(lo, clip(slot_of(f, upto), np)) =~= Seq::<Pack>::empty());
    } else {
        lemma_frame_diffs_layout(level, packs, x0, xn, f, upto - 1);
        lemma_read_back_word_diffs(level, packs, x0, xn, f, upto - 1);
        let s = slot_of(f, upto - 1);
        assert(slot_of(f, upto) == s + 1);
        let prev = packs.subrange(lo, clip(s, np));
        let d = word_diffs(level, nibble_at(w, f, upto - 1, false), w[16 * f + upto - 1], false);
        assert(frame_diffs(level, w, f, false, upto) == Ok::<Seq<i32>, crate::steim_spec::SteimError>(packs_diffs(level, prev) + d.unwrap()));
        if s < np {
            let next = packs.subrange(lo, clip(s + 1, np));
            assert(next =~= prev.push(packs[s]));
            assert(next.drop_last() =~= prev);
        } else {
            assert(packs.subrange(lo, clip(s + 1, np)) =~= prev);
            assert(packs_diffs(level, prev) + seq![] =~= packs_diffs(level, prev));
        }
    }
}


/// The differences held in a prefix of the packed words are a prefix of all of them.
proof fn lemma_packs_prefix(level: SteimLevel, packs: Seq<Pack>, a: int, b: int)
    requires
        0 <= a <= b <= packs.len(),
    ensures
        packs_diffs(level, packs.take(b)) == packs_diffs(level, packs.take(a)) + packs_diffs(level, packs.subrange(a, b)),
        packs_diffs(level, packs) == packs_diffs(level, packs.take(b)) + packs_diffs(level, packs.subrange(b, packs.len() as int)),
{
    lemma_packs_diffs_concat(level, packs.take(a), packs.subrange(a, b));
    assert(packs.take(a) + packs.subrange(a, b) =~= packs.take(b));
    lemma_packs_diffs_concat(level, packs.take(b), packs.subrange(b, packs.len() as int));
    assert(packs.take(b) + packs.subrange(b, packs.len() as int) =~= packs);
}

/// The differences held in the first `k` packed words are the first differences.
proof fn lemma_prefix_of_diffs(level: SteimLevel, packs: Seq<Pack>, ds: Seq<i32>, k: int)
    requires
        packs_diffs(level, packs) == ds,
        0 <= k <= packs.len(),
    ensures
        packs_diffs(level, packs.take(k)).len() <= ds.len(),
        packs_diffs(level, packs.take(k)) == ds.take(packs_diffs(level, packs.take(k)).len() as int),
{
    lemma_packs_prefix(level, packs, k, k);
    let a = packs_diffs(level, packs.take(k));
    let b = packs_diffs(level, packs.subrange(k, packs.len() as int));
    assert(ds == a + b);
    assert(ds.take(a.len() as int) =~= a);
}

/// The number of differences in the packed words of frames `0 .. f`.
pub open spec fn diffs_before(level: SteimLevel, packs: Seq<Pack>, f: int) -> int {
    packs_diffs(level, packs.take(clip(frame_lo(f), packs.len() as int))).len() as int
}

/// The frames cover all the packed words.
proof fn lemma_frames_cover(np: nat)
    ensures
        frame_lo(frame_count(np) as int) >= np,
        frame_count(np) >= 1,
{
    if np >= 13 {
        assert(13 + 15 * (1 + (np - 13) / 15) >= np) by (nonlinear_arith)
            requires np >= 13;
    }
}

/// A 32-bit word seen unsigned and back is the same word.
proof fn lemma_i32_u32_roundtrip(a: i32)
    ensures
        a as u32 as i32 == a,
{
    assert(a as u32 as i32 == a) by (bit_vector);
}

/// The facts that the frame-by-frame decoding of laid-out frames rests on.
pub open spec fn layout_decodes(level: SteimLevel, samples: Seq<i32>, d0: i32, packs: Seq<Pack>, x0: u32) -> bool {
    &&& samples.len() >= 1
    &&& packs_diffs(level, packs) == diffs_of(samples, d0)
    &&& forall|k: int| 0 <= k < packs.len() ==> good_pack(level, #[trigger] packs[k])
    &&& packs.len() >= 1
    &&& pack_diffs(level, packs[0]).len() >= 1
    &&& x0 as i32 == samples[0]
}

/// The first frame decodes to the first samples.
#[verifier::spinoff_prover]
#[verifier::rlimit(60)]
proof fn lemma_decoded_first_frame(level: SteimLevel, samples: Seq<i32>, d0: i32, packs: Seq<Pack>, x0: u32, xn: u32)
    requires
        layout_decodes(level, samples, d0, packs, x0),
    ensures
        decoded_after(level, layout_read_back(packs, x0, xn), 1, samples.len(), false) == Ok::<Seq<i32>, crate::steim_spec::SteimError>(
            samples.take(diffs_before(level, packs, 1)),
        ),
        1 <= diffs_before(level, packs, 1) <= samples.len(),
{
    let w = layout_read_back(packs, x0, xn);
    let n = samples.len();
    let np = packs.len() as int;
    let ds = diffs_of(samples, d0);
    let hi = clip(frame_lo(1), np);
    let d = packs_diffs(level, packs.subrange(0, hi));
    let tb = diffs_before(level, packs, 1);
    assert(1 <= hi <= np) by {
        lemma_frames_cover(packs.len());
    }
    assert(packs.subrange(0, hi) =~= packs.take(hi));
    assert(d == ds.take(tb) && tb <= n) by {
        lemma_prefix_of_diffs(level, packs, ds, hi);
    }
    assert(tb >= 1) by {
        lemma_packs_prefix(level, packs, 1, hi);
        let one = packs.take(1);
        assert(one.drop_last() =~= Seq::<Pack>::empty());
        assert(one.last() == packs[0]);
        assert(packs_diffs(level, one.drop_last()) =~= Seq::<i32>::empty());
        assert(packs_diffs(level, one) == packs_diffs(level, one.drop_last()) + pack_diffs(level, packs[0]));
    }
    assert(frame_diffs(level, w, 0, false, 16) == Ok::<Seq<i32>, crate::steim_spec::SteimError>(d)) by {
        assert(slot_of(0, 16) == frame_lo(1));
        lemma_frame_diffs_layout(level, packs, x0, xn, 0, 16);
    }
    assert(seq![frame_x0(w, false)] =~= samples.take(1)) by {
        lemma_read_back_word(packs, x0, xn, 0, 1);
        lemma_div_mod_16(0, 1);
    }
    assert(counted_diffs(0, d) =~= ds.subrange(1, 1 + (tb - 1)));
    assert(samples.len() == ds.len());
    assert(decoded_after(level, w, 0, n, false) == Ok::<Seq<i32>, crate::steim_spec::SteimError>(seq![]));
    assert(decoded_after(level, w, 1, n, false) == Ok::<Seq<i32>, crate::steim_spec::SteimError>(
        integrate(seq![frame_x0(w, false)], counted_diffs(0, d), n),
    ));
    lemma_integrate_diffs(samples, d0, 1, tb - 1);
}

/// Decoding the laid-out frames one after the other gives back the samples whose
/// differences they hold.
#[verifier::spinoff_prover]
#[verifier::rlimit(60)]
proof fn lemma_decoded_after_layout(level: SteimLevel, samples: Seq<i32>, d0: i32, packs: Seq<Pack>, x0: u32, xn: u32, f: nat)
    requires
        layout_decodes(level, samples, d0, packs, x0),
        1 <= f <= frame_count(packs.len()),
    ensures
        decoded_after(level, layout_read_back(packs, x0, xn), f, samples.len(), false) == Ok::<Seq<i32>, crate::steim_spec::SteimError>(
            samples.take(diffs_before(level, packs, f as int)),
        ),
        1 <= diffs_before(level, packs, f as int) <= samples.len(),
    decreases f,
{
    if f == 1 {
        lemma_decoded_first_frame(level, samples, d0, packs, x0, xn);
    } else {
        let n = samples.len();
        let np = packs.len() as int;
        let ds = diffs_of(samples, d0);
        let g = (f - 1) as int;
        let lo = clip(frame_lo(g), np);
        let hi = clip(frame_lo(f as int), np);
        assert(slot_of(g, 16) == frame_lo(f as int));
        lemma_frame_diffs_layout(level, packs, x0, xn, g, 16);
        assert(0 <= lo <= hi <= np);
        let tb = diffs_before(level, packs, f as int);
        let ta = diffs_before(level, packs, g);
        let d = packs_diffs(level, packs.subrange(lo, hi));
        assert(d =~= ds.subrange(ta, ta + (tb - ta)) && ta <= tb <= n) by {
            lemma_packs_prefix(level, packs, lo, hi);
            lemma_prefix_of_diffs(level, packs, ds, hi);
            lemma_prefix_of_diffs(level, packs, ds, lo);
        }
        lemma_decoded_after_layout(level, samples, d0, packs, x0, xn, (f - 1) as nat);
        if ta >= n {
            assert(tb == ta);
        } else {
            assert(counted_diffs(g, d) == d);
            lemma_integrate_diffs(samples, d0, ta, tb - ta);
        }
    }
}

/// Decoding the bytes of laid-out frames gives back the samples whose differences
/// the packed words hold, when the integration constants are the first and the last
/// sample.
proof fn lemma_decode_layout(level: SteimLevel, samples: Seq<i32>, d0: i32, packs: Seq<Pack>)
    requires
        samples.len() >= 1,
        packs_diffs(level, packs) == diffs_of(samples, d0),
        forall|k: int| 0 <= k < packs.len() ==> good_pack(level, #[trigger] packs[k]),
        packs.len() >= 1,
        pack_diffs(level, packs[0]).len() >= 1,
    ensures
        steim_decode(level, words_be_bytes(layout(packs, samples[0] as u32, samples.last() as u32)), samples.len(), false)
            == Ok::<Seq<i32>, crate::steim_spec::SteimError>(samples),
{
    let x0 = samples[0] as u32;
    let xn = samples.last() as u32;
    lemma_i32_u32_roundtrip(samples[0]);
    lemma_i32_u32_roundtrip(samples.last());
    let fc = frame_count(packs.len());
    let l = layout(packs, x0, xn);
    let bytes = words_be_bytes(l);
    lemma_words_bytes_roundtrip(l);
    lemma_frames_cover(packs.len());
    assert(bytes.len() / 64 == fc) by (nonlinear_arith)
        requires bytes.len() == 4 * l.len(), l.len() == 16 * fc;
    lemma_decoded_after_layout(level, samples, d0, packs, x0, xn, fc);
    assert(packs.take(packs.len() as int) =~= packs);
    assert(diffs_before(level, packs, fc as int) == samples.len());
    assert(samples.take(samples.len() as int) =~= samples);
    lemma_read_back_word(packs, x0, xn, 0, 2);
    lemma_div_mod_16(0, 2);
    assert(frame_xn(layout_read_back(packs, x0, xn), false) == samples.last());
}


/// Steim-1 round trip: decoding the Steim-1 encoding of one sample or more, with
/// their number as the sample count and without byte swapping, gives the samples
/// back, whatever difference `d0` is written before the first sample.
pub proof fn steim1_roundtrip(samples: Seq<i32>, d0: i32)
    requires
        samples.len() >= 1,
    ensures
        steim_decode(SteimLevel::Steim1, steim1_encode(samples, d0), samples.len(), false) == Ok::<
            Seq<i32>,
            crate::steim_spec::SteimError,
        >(samples),
{
    let ds = diffs_of(samples, d0);
    lemma_steim1_packs(ds, 0);
    lemma_steim1_pack_at(ds, 0);
    let packs = steim1_packs(ds, 0);
    assert(ds.subrange(0, ds.len() as int) =~= ds);
    assert(packs[0] == steim1_pack_at(ds, 0));
    lemma_decode_layout(SteimLevel::Steim1, samples, d0, packs);
}

/// Steim-2 round trip: when the Steim-2 encoding of one sample or more succeeds,
/// decoding it, with their number as the sample count and without byte swapping,
/// gives the samples back.
pub proof fn steim2_roundtrip(samples: Seq<i32>, d0: i32)
    requires
        samples.len() >= 1,
        steim2_encode(samples, d0) is Ok,
    ensures
        steim_decode(SteimLevel::Steim2, steim2_encode(samples, d0).unwrap(), samples.len(), false)
            == Ok::<Seq<i32>, crate::steim_spec::SteimError>(samples),
{
    let ds = diffs_of(samples, d0);
    lemma_steim2_packs(ds, 0);
    lemma_steim2_pack_at(ds, 0);
    let packs = steim2_packs(ds, 0).unwrap();
    assert(ds.subrange(0, ds.len() as int) =~= ds);
    assert(packs[0] == steim2_pack_at(ds, 0).unwrap());
    lemma_decode_layout(SteimLevel::Steim2, samples, d0, packs);
}

/// The words that pack `ds[i..]` exist exactly when no difference from `ds[i]` on
/// needs more than 30 bits.
proof fn lemma_steim2_packs_exist(ds: Seq<i32>, i: int)
    requires
        0 <= i <= ds.len(),
    ensures
        steim2_packs(ds, i) is None <==> exists|k: int| i <= k < ds.len() && #[trigger] bitwidth_spec(ds[k]) > 30,
    decreases ds.len() - i,
{
    if i < ds.len() {
        match steim2_pack_at(ds, i) {
            None => {
                assert(bitwidth_spec(ds[i]) > 30);
            },
            Some(p) => {
                lemma_steim2_pack_at(ds, i);
                lemma_steim2_packs_exist(ds, i + p.count);
                if exists|k: int| i <= k < ds.len() && #[trigger] bitwidth_spec(ds[k]) > 30 {
                    let k = choose|k: int| i <= k < ds.len() && #[trigger] bitwidth_spec(ds[k]) > 30;
                    if k < i + p.count {
                        assert(bitwidth_spec(ds[k]) <= 30);
                    }
                }
            },
        }
    }
}

/// Steim-2 refuses a set of samples exactly when one of the differences it would
/// pack, `d0` included, needs more than 30 bits.
pub proof fn steim2_refuses_wide_diffs(samples: Seq<i32>, d0: i32)
    ensures
        steim2_encode(samples, d0) is Err <==> exists|k: int|
            0 <= k < samples.len() && #[trigger] bitwidth_spec(diffs_of(samples, d0)[k]) > 30,
{
    lemma_steim2_packs_exist(diffs_of(samples, d0), 0);
}

} // verus!
