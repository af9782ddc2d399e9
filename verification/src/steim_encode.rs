//! Encoding of samples as Steim-1 and Steim-2 payloads.

use vstd::prelude::*;
use crate::steim_spec::{
    code_word_upto, diffs_of, field, field_mask, first_data_word, frame_count, layout,
    layout_word, nib_in, pack2_4x8, pack_1x30, pack_2x15, pack_2x16, pack_3x10, pack_4x8,
    pack_5x6, pack_6x5, pack_7x4, result_view, slot_of, steim1_encode, steim1_pack_at,
    steim1_packs, steim2_encode_frames, steim2_pack_at, steim2_packs, widths_within, Pack,
    SteimError,
};
use crate::utils::{bitwidth_needed, bitwidth_spec};
use crate::words::{swap32, u32_be_bytes, words_be_bytes, words_to_be_bytes};

verus! {

/// The differences to pack: `d0`, then each sample minus the one before it (modulo 2^32).
fn diffs_exec(samples: &[i32], d0: i32) -> (r: Vec<i32>)
    ensures
        r@ == diffs_of(samples@, d0),
{
    let n = samples.len();
    let mut diff: Vec<i32> = Vec::with_capacity(n);
    if n == 0 {
        proof {
            assert(diff@ =~= diffs_of(samples@, d0));
        }
        return diff;
    }
    diff.push(d0);
    let mut i: usize = 1;
    while i < n
        invariant
            n == samples@.len(),
            1 <= i <= n,
            diff@ == diffs_of(samples@, d0).take(i as int),
        decreases n - i,
    {
        diff.push(samples[i].wrapping_sub(samples[i - 1]));
        proof {
            assert(diff@ =~= diffs_of(samples@, d0).take(i + 1));
        }
        i = i + 1;
    }
    proof {
        assert(diff@ =~= diffs_of(samples@, d0));
    }
    diff
}

/// The bit width that each difference needs.
fn widths_exec(ds: &Vec<i32>) -> (r: Vec<u8>)
    ensures
        r@.len() == ds@.len(),
        forall|k: int| 0 <= k < ds@.len() ==> r@[k] == bitwidth_spec(#[trigger] ds@[k]),
{
    let mut w: Vec<u8> = Vec::with_capacity(ds.len());
    let mut k: usize = 0;
    while k < ds.len()
        invariant
            k <= ds@.len(),
            w@.len() == k,
            forall|j: int| 0 <= j < k ==> w@[j] == bitwidth_spec(#[trigger] ds@[j]),
        decreases ds@.len() - k,
    {
        w.push(bitwidth_needed(ds[k]));
        k = k + 1;
    }
    w
}

/// Whether the `count` differences from index `i` on all fit in `bits` bits.
fn within(widths: &Vec<u8>, ds: Ghost<Seq<i32>>, i: usize, count: usize, bits: u8) -> (r: bool)
    requires
        widths@.len() == ds@.len(),
        forall|k: int| 0 <= k < ds@.len() ==> widths@[k] == bitwidth_spec(#[trigger] ds@[k]),
        i <= widths@.len(),
        count <= 7,
    ensures
        r == widths_within(ds@, i as int, count as int, bits as int),
{
    let len = widths.len();
    if count > len - i {
        return false;
    }
    let mut k: usize = 0;
    while k < count
        invariant
            i + count <= widths@.len(),
            widths@.len() <= usize::MAX,
            widths@.len() == ds@.len(),
            forall|j: int| 0 <= j < ds@.len() ==> widths@[j] == bitwidth_spec(#[trigger] ds@[j]),
            k <= count,
            forall|j: int| i <= j < i + k ==> bitwidth_spec(#[trigger] ds@[j]) <= bits,
        decreases count - k,
    {
        if widths[i + k] > bits {
            assert(bitwidth_spec(ds@[i + k as int]) > bits);
            return false;
        }
        k = k + 1;
    }
    true
}

/// The low `bits` bits of `d`.
fn field_exec(d: i32, bits: u32) -> (r: u32)
    ensures
        r == field(d, bits),
{
    let mask: u32 = if bits == 4 {
        0xF
    } else if bits == 5 {
        0x1F
    } else if bits == 6 {
        0x3F
    } else if bits == 8 {
        0xFF
    } else if bits == 10 {
        0x3FF
    } else if bits == 15 {
        0x7FFF
    } else if bits == 16 {
        0xFFFF
    } else {
        0x3FFF_FFFF
    };
    assert(mask == field_mask(bits) as u32);
    (d as u32) & mask
}

/// The Steim-1 word that packs the differences from `ds[i]` on.
fn steim1_pack_exec(ds: &Vec<i32>, widths: &Vec<u8>, i: usize) -> (r: Pack)
    requires
        i < ds@.len(),
        widths@.len() == ds@.len(),
        forall|k: int| 0 <= k < ds@.len() ==> widths@[k] == bitwidth_spec(#[trigger] ds@[k]),
    ensures
        r == steim1_pack_at(ds@, i as int),
{
    let _len = ds.len();
    if within(widths, Ghost(ds@), i, 4, 8) {
        let word = (field_exec(ds[i], 8) << 24u32) | (field_exec(ds[i + 1], 8) << 16u32) | (field_exec(ds[i + 2], 8)
            << 8u32) | field_exec(ds[i + 3], 8);
        Pack { nib: 1, word, count: 4 }
    } else if within(widths, Ghost(ds@), i, 2, 16) {
        let word = (field_exec(ds[i], 16) << 16u32) | field_exec(ds[i + 1], 16);
        Pack { nib: 2, word, count: 2 }
    } else {
        Pack { nib: 3, word: ds[i] as u32, count: 1 }
    }
}

/// The Steim-2 word that packs the differences from `ds[i]` on, if any can.
fn steim2_pack_exec(ds: &Vec<i32>, widths: &Vec<u8>, i: usize) -> (r: Option<Pack>)
    requires
        i < ds@.len(),
        widths@.len() == ds@.len(),
        forall|k: int| 0 <= k < ds@.len() ==> widths@[k] == bitwidth_spec(#[trigger] ds@[k]),
    ensures
        r == steim2_pack_at(ds@, i as int),
{
    let _len = ds.len();
    let g = Ghost(ds@);
    if within(widths, g, i, 7, 4) {
        let word = field_exec(ds[i + 6], 4) | (field_exec(ds[i + 5], 4) << 4u32) | (field_exec(ds[i + 4], 4) << 8u32)
            | (field_exec(ds[i + 3], 4) << 12u32) | (field_exec(ds[i + 2], 4) << 16u32) | (field_exec(ds[i + 1], 4)
            << 20u32) | (field_exec(ds[i], 4) << 24u32) | (2u32 << 30u32);
        Some(Pack { nib: 3, word, count: 7 })
    } else if within(widths, g, i, 6, 5) {
        let word = field_exec(ds[i + 5], 5) | (field_exec(ds[i + 4], 5) << 5u32) | (field_exec(ds[i + 3], 5) << 10u32)
            | (field_exec(ds[i + 2], 5) << 15u32) | (field_exec(ds[i + 1], 5) << 20u32) | (field_exec(ds[i], 5)
            << 25u32) | (1u32 << 30u32);
        Some(Pack { nib: 3, word, count: 6 })
    } else if within(widths, g, i, 5, 6) {
        let word = field_exec(ds[i + 4], 6) | (field_exec(ds[i + 3], 6) << 6u32) | (field_exec(ds[i + 2], 6) << 12u32)
            | (field_exec(ds[i + 1], 6) << 18u32) | (field_exec(ds[i], 6) << 24u32);
        Some(Pack { nib: 3, word, count: 5 })
    } else if within(widths, g, i, 4, 8) {
        let word = field_exec(ds[i + 3], 8) | (field_exec(ds[i + 2], 8) << 8u32) | (field_exec(ds[i + 1], 8) << 16u32)
            | (field_exec(ds[i], 8) << 24u32);
        Some(Pack { nib: 1, word, count: 4 })
    } else if within(widths, g, i, 3, 10) {
        let word = field_exec(ds[i + 2], 10) | (field_exec(ds[i + 1], 10) << 10u32) | (field_exec(ds[i], 10) << 20u32)
            | (3u32 << 30u32);
        Some(Pack { nib: 2, word, count: 3 })
    } else if within(widths, g, i, 2, 15) {
        let word = field_exec(ds[i + 1], 15) | (field_exec(ds[i], 15) << 15u32) | (2u32 << 30u32);
        Some(Pack { nib: 2, word, count: 2 })
    } else if within(widths, g, i, 1, 30) {
        let word = field_exec(ds[i], 30) | (1u32 << 30u32);
        Some(Pack { nib: 2, word, count: 1 })
    } else {
        None
    }
}

/// The Steim-1 words that pack all of `ds`.
fn steim1_pack_all(ds: &Vec<i32>) -> (r: Vec<Pack>)
    ensures
        r@ == steim1_packs(ds@, 0),
        r@.len() <= ds@.len(),
{
    let widths = widths_exec(ds);
    let mut packs: Vec<Pack> = Vec::new();
    let mut i: usize = 0;
    while i < ds.len()
        invariant
            i <= ds@.len(),
            widths@.len() == ds@.len(),
            forall|k: int| 0 <= k < ds@.len() ==> widths@[k] == bitwidth_spec(#[trigger] ds@[k]),
            packs@ + steim1_packs(ds@, i as int) == steim1_packs(ds@, 0),
            packs@.len() <= i,
        decreases ds@.len() - i,
    {
        let p = steim1_pack_exec(ds, &widths, i);
        proof {
            assert(steim1_packs(ds@, i as int) == seq![p] + steim1_packs(ds@, i + p.count));
            assert(packs@.push(p) + steim1_packs(ds@, i + p.count) =~= packs@ + steim1_packs(ds@, i as int));
        }
        packs.push(p);
        i = i + p.count;
    }
    proof {
        assert(steim1_packs(ds@, i as int) =~= seq![]);
        assert(packs@ + seq![] =~= packs@);
    }
    packs
}

/// The Steim-2 words that pack all of `ds`, or the error when a difference needs
/// more than 30 bits.
fn steim2_pack_all(ds: &Vec<i32>) -> (r: Result<Vec<Pack>, SteimError>)
    ensures
        match steim2_packs(ds@, 0) {
            None => r == Err::<Vec<Pack>, SteimError>(SteimError::DiffTooWide),
            Some(ps) => r matches Ok(v) && v@ == ps && ps.len() <= ds@.len(),
        },
{
    let widths = widths_exec(ds);
    let mut packs: Vec<Pack> = Vec::new();
    let mut i: usize = 0;
    while i < ds.len()
        invariant
            i <= ds@.len(),
            widths@.len() == ds@.len(),
            forall|k: int| 0 <= k < ds@.len() ==> widths@[k] == bitwidth_spec(#[trigger] ds@[k]),
            steim2_packs(ds@, 0) == match steim2_packs(ds@, i as int) {
                None => None,
                Some(rest) => Some(packs@ + rest),
            },
            packs@.len() <= i,
        decreases ds@.len() - i,
    {
        match steim2_pack_exec(ds, &widths, i) {
            None => {
                return Err(SteimError::DiffTooWide);
            },
            Some(p) => {
                proof {
                    match steim2_packs(ds@, i + p.count) {
                        None => {},
                        Some(rest) => {
                            assert(packs@.push(p) + rest =~= packs@ + (seq![p] + rest));
                        },
                    }
                }
                packs.push(p);
                i = i + p.count;
            },
        }
    }
    proof {
        assert(packs@ + seq![] =~= packs@);
    }
    Ok(packs)
}

/// Lays the packed words out in frames, with the integration constants `x0` and `xn`.
fn layout_exec(packs: &Vec<Pack>, x0: u32, xn: u32) -> (r: Vec<u32>)
    requires
        packs@.len() <= usize::MAX / 32,
    ensures
        r@ == layout(packs@, x0, xn),
{
    let np = packs.len();
    let nframes: usize = if np < 13 { 1 } else { 2 + (np - 13) / 15 };
    assert(nframes == frame_count(np as nat));
    assert(16 * nframes <= usize::MAX) by (nonlinear_arith)
        requires nframes == frame_count(np as nat), np <= usize::MAX / 32;
    let ghost full = layout(packs@, x0, xn);
    let mut out: Vec<u32> = Vec::with_capacity(16 * nframes);
    let mut f: usize = 0;
    while f < nframes
        invariant
            np == packs@.len(),
            np <= usize::MAX / 32,
            nframes == frame_count(np as nat),
            16 * nframes <= usize::MAX,
            full == layout(packs@, x0, xn),
            full.len() == 16 * nframes,
            f <= nframes,
            out@ == full.take(16 * f),
        decreases nframes - f,
    {
        let first: usize = if f == 0 { 3 } else { 1 };
        assert(f <= np / 15 + 1) by (nonlinear_arith)
            requires f < nframes, nframes == frame_count(np as nat);
        // the code word
        let mut w0: u32 = 0;
        let mut pos: usize = first;
        while pos < 16
            invariant
                first == first_data_word(f as int),
                first <= pos <= 16,
                f <= np / 15 + 1,
                np == packs@.len(),
                np <= usize::MAX / 32,
                w0 == code_word_upto(packs@, f as int, pos as int),
            decreases 16 - pos,
        {
            let s: usize = if f == 0 { pos - 3 } else { 13 + 15 * (f - 1) + pos - 1 };
            assert(s == slot_of(f as int, pos as int));
            let nib: u32 = if s < np { packs[s].nib } else { 0 };
            w0 = w0 | (nib << ((30 - 2 * pos) as u32));
            pos = pos + 1;
        }
        proof {
            lemma_div_mod_16(f as int, 0);
        }
        out.push(w0);
        if f == 0 {
            proof {
                lemma_div_mod_16(0, 1);
                lemma_div_mod_16(0, 2);
            }
            out.push(x0);
            out.push(xn);
        }
        let mut pos: usize = first;
        while pos < 16
            invariant
                first == first_data_word(f as int),
                first <= pos <= 16,
                f < nframes,
                f <= np / 15 + 1,
                np == packs@.len(),
                np <= usize::MAX / 32,
                16 * nframes <= usize::MAX,
                full == layout(packs@, x0, xn),
                full.len() == 16 * nframes,
                out@ == full.take(16 * f + pos),
            decreases 16 - pos,
        {
            let s: usize = if f == 0 { pos - 3 } else { 13 + 15 * (f - 1) + pos - 1 };
            assert(s == slot_of(f as int, pos as int));
            let word: u32 = if s < np { packs[s].word } else { 0 };
            proof {
                lemma_div_mod_16(f as int, pos as int);
                assert(16 * f + pos < 16 * nframes) by (nonlinear_arith)
                    requires f < nframes, pos < 16;
                assert(full[16 * f + pos] == word);
                assert(full.take(16 * f + pos + 1) =~= full.take(16 * f + pos).push(word));
            }
            out.push(word);
            pos = pos + 1;
        }
        f = f + 1;
    }
    proof {
        assert(full.take(16 * nframes) =~= full);
    }
    out
}

/// Word `16 * f + pos` of the frames is word `pos` of frame `f`.
proof fn lemma_div_mod_16(f: int, pos: int)
    requires
        f >= 0,
        0 <= pos < 16,
    ensures
        (16 * f + pos) / 16 == f,
        (16 * f + pos) % 16 == pos,
{
    assert((16 * f + pos) / 16 == f && (16 * f + pos) % 16 == pos) by (nonlinear_arith)
        requires f >= 0, 0 <= pos < 16;
}


/// The number of words of the frames for `np` packed words fits in memory.
proof fn lemma_layout_size(np: nat, n: nat)
    requires
        np <= n,
        n <= usize::MAX / 64,
    ensures
        np <= usize::MAX / 32,
        16 * frame_count(np) * 4 <= usize::MAX,
{
    if np >= 13 {
        assert(16 * (2 + (np - 13) / 15) * 4 <= usize::MAX) by (nonlinear_arith)
            requires np <= usize::MAX / 64, np >= 13;
    }
}

/// Encodes `samples` as a Steim-1 payload, with `diff_0` as the difference written
/// before the first sample: nothing for no sample, else the frames, written
/// big-endian.
pub fn steim1_encode_samples(samples: &[i32], diff_0: i32) -> (r: Vec<u8>)
    requires
        samples@.len() <= usize::MAX / 64,
    ensures
        r@ == steim1_encode(samples@, diff_0),
{
    let n = samples.len();
    if n == 0 {
        return Vec::new();
    }
    let ds = diffs_exec(samples, diff_0);
    let packs = steim1_pack_all(&ds);
    proof {
        lemma_layout_size(packs@.len(), n as nat);
    }
    let words = layout_exec(&packs, samples[0] as u32, samples[n - 1] as u32);
    words_to_be_bytes(&words)
}

/// Encodes one sample or more as Steim-2 frames, with `diff_0` as the difference
/// written before the first sample and `x0`, `xn` as the words written for the
/// first and the last sample; fails when a difference needs more than 30 bits.
pub fn steim2_encode_frames_exec(samples: &[i32], diff_0: i32, x0: i32, xn: i32) -> (r: Result<Vec<u8>, SteimError>)
    requires
        samples@.len() <= usize::MAX / 64,
    ensures
        result_view(r) == steim2_encode_frames(samples@, diff_0, x0, xn),
{
    let ds = diffs_exec(samples, diff_0);
    match steim2_pack_all(&ds) {
        Err(e) => Err(e),
        Ok(packs) => {
            proof {
                lemma_layout_size(packs@.len(), samples@.len());
            }
            let words = layout_exec(&packs, x0 as u32, xn as u32);
            Ok(words_to_be_bytes(&words))
        },
    }
}

} // verus!
