//! The Steim-1 and Steim-2 compression formats, stated over sequences.
//!
//! A Steim payload is a sequence of 64-byte frames, each made of sixteen big-endian
//! 32-bit words. Word 0 of a frame holds fifteen 2-bit codes ("nibbles"), one per
//! following word, that say how the differences are packed in that word. In the
//! first frame, words 1 and 2 hold the first sample (X0) and the last sample (Xn).
//! The samples are the running sums of the differences, starting from X0; the very
//! first difference, which precedes X0, is not used.

use vstd::prelude::*;
use crate::utils::{bitwidth_spec, sign_extend_spec};
use crate::words::{be_words, swap32, words_be_bytes};

verus! {

/// The errors of the Steim codecs.
#[derive(Debug, Clone, Copy, PartialEq, Eq, Structural)]
pub enum SteimError {
    /// The payload to decode holds no word at all.
    EmptyInput,
    /// The number of samples decoded differs from the sample count of the record.
    SampleCountMismatch,
    /// Steim-2: the last decoded sample differs from the reverse integration constant.
    IntegrityCheckFailed,
    /// Steim-2: a word with nibble `10` carries the sub-code `00`.
    InvalidDnibForNibble10,
    /// Steim-2: a word with nibble `11` carries the sub-code `11`.
    InvalidDnibForNibble11,
    /// The data to encode are not 32-bit integers.
    NotI32Data,
    /// Steim-2: a difference needs more than 30 bits.
    DiffTooWide,
    /// Steim-3 is not supported.
    Unsupported,
}

/// The two supported levels of Steim compression.
#[derive(Debug, Clone, Copy, PartialEq, Eq, Structural)]
pub enum SteimLevel {
    Steim1,
    Steim2,
}

/// A `Result` whose value is a vector, seen through the vector's view.
pub open spec fn result_view<T>(r: Result<Vec<T>, SteimError>) -> Result<Seq<T>, SteimError> {
    match r {
        Ok(v) => Ok(v@),
        Err(e) => Err(e),
    }
}

/// The mask of the low `bits` bits, for the field widths that the codecs use.
pub open spec fn field_mask(bits: u32) -> i32 {
    if bits == 4 {
        0xF
    } else if bits == 5 {
        0x1F
    } else if bits == 6 {
        0x3F
    } else if bits == 8 {
        0xFF
    } else if bits == 10 {
        0x3FF
    } else if bits == 15 {
        0x7FFF
    } else if bits == 16 {
        0xFFFF
    } else {
        0x3FFF_FFFF
    }
}

/// A field layout that a Steim word can hold: `count` fields of `bits` bits.
pub open spec fn valid_layout(count: u32, bits: u32) -> bool {
    ||| count == 4 && bits == 8
    ||| count == 2 && bits == 16
    ||| count == 1 && bits == 30
    ||| count == 2 && bits == 15
    ||| count == 3 && bits == 10
    ||| count == 5 && bits == 6
    ||| count == 6 && bits == 5
    ||| count == 7 && bits == 4
}

/// The `count` fields of `bits` bits packed in `w`, the first one in the highest
/// bits, each read as a two's complement number.
pub open spec fn unpack(w: i32, count: u32, bits: u32) -> Seq<i32> {
    Seq::new(
        count as nat,
        |k: int|
            sign_extend_spec(
                (w >> ((bits * (count - 1 - k)) as u32)) & field_mask(bits),
                bits,
            ),
    )
}

/// The differences that a Steim-1 word `w` with code `nib` holds.
pub open spec fn steim1_word_diffs(nib: i32, w: i32, swap: bool) -> Seq<i32> {
    if nib == 1 {
        unpack(w, 4, 8)
    } else if nib == 2 {
        if swap {
            seq![
                sign_extend_spec((w >> 0u32) & 0xFFFF, 16),
                sign_extend_spec((w >> 16u32) & 0xFFFF, 16),
            ]
        } else {
            unpack(w, 2, 16)
        }
    } else if nib == 3 {
        seq![sign_extend_spec(if swap { swap32(w) } else { w }, 32)]
    } else {
        seq![]
    }
}

/// The sub-code held in the top two bits of a Steim-2 word.
pub open spec fn dnib_of(v: i32) -> i32 {
    (v >> 30u32) & 3
}

/// The differences that a Steim-2 word `w` with code `nib` holds, or the error
/// for a sub-code that the format does not define.
pub open spec fn steim2_word_diffs(nib: i32, w: i32, swap: bool) -> Result<Seq<i32>, SteimError> {
    let v = if swap { swap32(w) } else { w };
    if nib == 1 {
        Ok(unpack(w, 4, 8))
    } else if nib == 2 {
        let dnib = dnib_of(v);
        if dnib == 0 {
            Err(SteimError::InvalidDnibForNibble10)
        } else if dnib == 1 {
            Ok(unpack(v, 1, 30))
        } else if dnib == 2 {
            Ok(unpack(v, 2, 15))
        } else {
            Ok(unpack(v, 3, 10))
        }
    } else if nib == 3 {
        let dnib = dnib_of(v);
        if dnib == 0 {
            Ok(unpack(v, 5, 6))
        } else if dnib == 1 {
            Ok(unpack(v, 6, 5))
        } else if dnib == 2 {
            Ok(unpack(v, 7, 4))
        } else {
            Err(SteimError::InvalidDnibForNibble11)
        }
    } else {
        Ok(seq![])
    }
}

/// The differences that a word holds, for either level.
pub open spec fn word_diffs(level: SteimLevel, nib: i32, w: i32, swap: bool) -> Result<Seq<i32>, SteimError> {
    match level {
        SteimLevel::Steim1 => Ok(steim1_word_diffs(nib, w, swap)),
        SteimLevel::Steim2 => steim2_word_diffs(nib, w, swap),
    }
}

/// The first word of frame `f` that may hold differences.
pub open spec fn first_data_word(f: int) -> int {
    if f == 0 {
        3
    } else {
        1
    }
}

/// Word 0 of frame `f`, the one that holds the codes.
pub open spec fn code_word(words: Seq<i32>, f: int, swap: bool) -> i32 {
    if swap {
        swap32(words[16 * f])
    } else {
        words[16 * f]
    }
}

/// The 2-bit code of word `widx` of frame `f`.
pub open spec fn nibble_at(words: Seq<i32>, f: int, widx: int, swap: bool) -> i32 {
    (code_word(words, f, swap) >> ((30 - 2 * widx) as u32)) & 3
}

/// The differences held in words `first_data_word(f) .. upto` of frame `f`, in order.
pub open spec fn frame_diffs(level: SteimLevel, words: Seq<i32>, f: int, swap: bool, upto: int) -> Result<
    Seq<i32>,
    SteimError,
>
    decreases upto,
{
    if upto <= first_data_word(f) {
        Ok(seq![])
    } else {
        match frame_diffs(level, words, f, swap, upto - 1) {
            Err(e) => Err(e),
            Ok(d) => match word_diffs(level, nibble_at(words, f, upto - 1, swap), words[16 * f + upto - 1], swap) {
                Err(e) => Err(e),
                Ok(d2) => Ok(d + d2),
            },
        }
    }
}

/// The forward integration constant: the first sample.
pub open spec fn frame_x0(words: Seq<i32>, swap: bool) -> i32 {
    if swap {
        swap32(words[1])
    } else {
        words[1]
    }
}

/// The reverse integration constant: the last sample.
pub open spec fn frame_xn(words: Seq<i32>, swap: bool) -> i32 {
    if swap {
        swap32(words[2])
    } else {
        words[2]
    }
}

/// Extends `out` by the running sums of the differences `ds` (modulo 2^32),
/// stopping once `out` holds `n` samples.
pub open spec fn integrate(out: Seq<i32>, ds: Seq<i32>, n: nat) -> Seq<i32>
    decreases ds.len(),
{
    if ds.len() == 0 {
        out
    } else {
        let r = integrate(out, ds.drop_last(), n);
        if r.len() < n {
            r.push(r.last().wrapping_add(ds.last()))
        } else {
            r
        }
    }
}

/// The differences of frame 0 that count: all but the first one.
pub open spec fn counted_diffs(f: int, ds: Seq<i32>) -> Seq<i32> {
    if f == 0 && ds.len() > 0 {
        ds.drop_first()
    } else {
        ds
    }
}

/// The samples decoded from the first `f` frames, for a record of `n` samples.
/// A frame is only read while fewer than `n` samples have been decoded.
pub open spec fn decoded_after(level: SteimLevel, words: Seq<i32>, f: nat, n: nat, swap: bool) -> Result<
    Seq<i32>,
    SteimError,
>
    decreases f,
{
    if f == 0 {
        Ok(seq![])
    } else {
        match decoded_after(level, words, (f - 1) as nat, n, swap) {
            Err(e) => Err(e),
            Ok(out) => if out.len() >= n {
                Ok(out)
            } else {
                match frame_diffs(level, words, f - 1, swap, 16) {
                    Err(e) => Err(e),
                    Ok(ds) => {
                        let base = if f == 1 { seq![frame_x0(words, swap)] } else { out };
                        Ok(integrate(base, counted_diffs(f - 1, ds), n))
                    },
                }
            },
        }
    }
}

/// The result of decoding the Steim payload `data` of a record of `n` samples: an
/// error for an empty payload, no sample for a count of 0, and otherwise exactly
/// `n` samples or an error; a payload shorter than a frame holds too few samples.
pub open spec fn steim_decode(level: SteimLevel, data: Seq<u8>, n: nat, swap: bool) -> Result<
    Seq<i32>,
    SteimError,
> {
    if data.len() == 0 {
        Err(SteimError::EmptyInput)
    } else if n == 0 {
        Ok(seq![])
    } else if data.len() / 64 == 0 {
        Err(SteimError::SampleCountMismatch)
    } else {
        let words = be_words(data);
        match decoded_after(level, words, data.len() / 64, n, swap) {
            Err(e) => Err(e),
            Ok(out) => if level == SteimLevel::Steim2 && out.len() == n && out.last() != frame_xn(
                words,
                swap,
            ) {
                Err(SteimError::IntegrityCheckFailed)
            } else if out.len() != n {
                Err(SteimError::SampleCountMismatch)
            } else {
                Ok(out)
            },
        }
    }
}

// ---------------------------------------------------------------------------
// Encoding

/// One packed data word: its 2-bit code, its value and how many differences it holds.
#[derive(Debug, Clone, Copy, PartialEq, Eq, Structural)]
pub struct Pack {
    pub nib: u32,
    pub word: u32,
    pub count: usize,
}

/// The differences that an encoder packs: `d0` first, then the difference of each
/// sample from the one before it, modulo 2^32.
pub open spec fn diffs_of(samples: Seq<i32>, d0: i32) -> Seq<i32> {
    Seq::new(
        samples.len(),
        |i: int|
            if i == 0 {
                d0
            } else {
                samples[i].wrapping_sub(samples[i - 1])
            },
    )
}

/// The low `bits` bits of `d`, as an unsigned field.
pub open spec fn field(d: i32, bits: u32) -> u32 {
    (d as u32) & (field_mask(bits) as u32)
}

/// Each of the `count` differences from `ds[i]` on fits in `bits` bits.
pub open spec fn widths_within(ds: Seq<i32>, i: int, count: int, bits: int) -> bool {
    &&& i + count <= ds.len()
    &&& forall|k: int| i <= k < i + count ==> bitwidth_spec(#[trigger] ds[k]) <= bits
}

/// Steim-1: four 8-bit differences in one word.
pub open spec fn pack_4x8(ds: Seq<i32>, i: int) -> u32 {
    (field(ds[i], 8) << 24u32) | (field(ds[i + 1], 8) << 16u32) | (field(ds[i + 2], 8) << 8u32) | field(ds[i + 3], 8)
}

/// Steim-1: two 16-bit differences in one word.
pub open spec fn pack_2x16(ds: Seq<i32>, i: int) -> u32 {
    (field(ds[i], 16) << 16u32) | field(ds[i + 1], 16)
}

/// Steim-2: seven 4-bit differences, sub-code `10`.
pub open spec fn pack_7x4(ds: Seq<i32>, i: int) -> u32 {
    field(ds[i + 6], 4) | (field(ds[i + 5], 4) << 4u32) | (field(ds[i + 4], 4) << 8u32) | (field(ds[i + 3], 4) << 12u32)
        | (field(ds[i + 2], 4) << 16u32) | (field(ds[i + 1], 4) << 20u32) | (field(ds[i], 4) << 24u32) | (2u32 << 30u32)
}

/// Steim-2: six 5-bit differences, sub-code `01`.
pub open spec fn pack_6x5(ds: Seq<i32>, i: int) -> u32 {
    field(ds[i + 5], 5) | (field(ds[i + 4], 5) << 5u32) | (field(ds[i + 3], 5) << 10u32) | (field(ds[i + 2], 5) << 15u32)
        | (field(ds[i + 1], 5) << 20u32) | (field(ds[i], 5) << 25u32) | (1u32 << 30u32)
}

/// Steim-2: five 6-bit differences, sub-code `00`.
pub open spec fn pack_5x6(ds: Seq<i32>, i: int) -> u32 {
    field(ds[i + 4], 6) | (field(ds[i + 3], 6) << 6u32) | (field(ds[i + 2], 6) << 12u32) | (field(ds[i + 1], 6) << 18u32)
        | (field(ds[i], 6) << 24u32)
}

/// Steim-2: four 8-bit differences, no sub-code.
pub open spec fn pack2_4x8(ds: Seq<i32>, i: int) -> u32 {
    field(ds[i + 3], 8) | (field(ds[i + 2], 8) << 8u32) | (field(ds[i + 1], 8) << 16u32) | (field(ds[i], 8) << 24u32)
}

/// Steim-2: three 10-bit differences, sub-code `11`.
pub open spec fn pack_3x10(ds: Seq<i32>, i: int) -> u32 {
    field(ds[i + 2], 10) | (field(ds[i + 1], 10) << 10u32) | (field(ds[i], 10) << 20u32) | (3u32 << 30u32)
}

/// Steim-2: two 15-bit differences, sub-code `10`.
pub open spec fn pack_2x15(ds: Seq<i32>, i: int) -> u32 {
    field(ds[i + 1], 15) | (field(ds[i], 15) << 15u32) | (2u32 << 30u32)
}

/// Steim-2: one 30-bit difference, sub-code `01`.
pub open spec fn pack_1x30(ds: Seq<i32>, i: int) -> u32 {
    field(ds[i], 30) | (1u32 << 30u32)
}

/// The Steim-1 word that packs the differences from `ds[i]` on: four bytes when the
/// next four differences fit in 8 bits, else two halves when the next two fit in 16
/// bits, else one full word.
pub open spec fn steim1_pack_at(ds: Seq<i32>, i: int) -> Pack {
    if widths_within(ds, i, 4, 8) {
        Pack { nib: 1, word: pack_4x8(ds, i), count: 4 }
    } else if widths_within(ds, i, 2, 16) {
        Pack { nib: 2, word: pack_2x16(ds, i), count: 2 }
    } else {
        Pack { nib: 3, word: ds[i] as u32, count: 1 }
    }
}

/// The Steim-2 word that packs the differences from `ds[i]` on: the layout that holds
/// the most of the next differences, or none when `ds[i]` needs more than 30 bits.
pub open spec fn steim2_pack_at(ds: Seq<i32>, i: int) -> Option<Pack> {
    if widths_within(ds, i, 7, 4) {
        Some(Pack { nib: 3, word: pack_7x4(ds, i), count: 7 })
    } else if widths_within(ds, i, 6, 5) {
        Some(Pack { nib: 3, word: pack_6x5(ds, i), count: 6 })
    } else if widths_within(ds, i, 5, 6) {
        Some(Pack { nib: 3, word: pack_5x6(ds, i), count: 5 })
    } else if widths_within(ds, i, 4, 8) {
        Some(Pack { nib: 1, word: pack2_4x8(ds, i), count: 4 })
    } else if widths_within(ds, i, 3, 10) {
        Some(Pack { nib: 2, word: pack_3x10(ds, i), count: 3 })
    } else if widths_within(ds, i, 2, 15) {
        Some(Pack { nib: 2, word: pack_2x15(ds, i), count: 2 })
    } else if widths_within(ds, i, 1, 30) {
        Some(Pack { nib: 2, word: pack_1x30(ds, i), count: 1 })
    } else {
        None
    }
}

/// The Steim-1 words that pack `ds[i..]`, in order.
pub open spec fn steim1_packs(ds: Seq<i32>, i: int) -> Seq<Pack>
    decreases ds.len() - i,
{
    if i < 0 || i >= ds.len() {
        seq![]
    } else {
        let p = steim1_pack_at(ds, i);
        seq![p] + steim1_packs(ds, i + p.count)
    }
}

/// The Steim-2 words that pack `ds[i..]`, in order, or none when a difference needs
/// more than 30 bits.
pub open spec fn steim2_packs(ds: Seq<i32>, i: int) -> Option<Seq<Pack>>
    decreases ds.len() - i,
{
    if i < 0 || i >= ds.len() {
        Some(seq![])
    } else {
        match steim2_pack_at(ds, i) {
            None => None,
            Some(p) => if p.count >= 1 {
                match steim2_packs(ds, i + p.count) {
                    None => None,
                    Some(rest) => Some(seq![p] + rest),
                }
            } else {
                None
            },
        }
    }
}

/// The number of frames for `p` packed words: frame 0 holds 13 of them, each later
/// frame 15, and the last frame always keeps at least one word free.
pub open spec fn frame_count(p: nat) -> nat {
    if p < 13 {
        1
    } else {
        (2 + (p - 13) / 15) as nat
    }
}

/// The index of the packed word that sits at word `pos` of frame `f`.
pub open spec fn slot_of(f: int, pos: int) -> int {
    if f == 0 {
        pos - 3
    } else {
        13 + 15 * (f - 1) + pos - 1
    }
}

/// The code of the word at word `pos` of frame `f`: that of its packed word, or 0.
pub open spec fn nib_in(packs: Seq<Pack>, f: int, pos: int) -> u32 {
    let s = slot_of(f, pos);
    if 0 <= s < packs.len() {
        packs[s].nib
    } else {
        0
    }
}

/// The code word of frame `f` with the codes of words `first_data_word(f) .. pos` set.
pub open spec fn code_word_upto(packs: Seq<Pack>, f: int, pos: int) -> u32
    decreases pos,
{
    if pos <= first_data_word(f) {
        0
    } else {
        code_word_upto(packs, f, pos - 1) | (nib_in(packs, f, pos - 1) << ((30 - 2 * (pos - 1)) as u32))
    }
}

/// Word `j` of the frames that hold `packs`, with the integration constants `x0` and `xn`.
pub open spec fn layout_word(packs: Seq<Pack>, x0: u32, xn: u32, j: int) -> u32 {
    let f = j / 16;
    let pos = j % 16;
    if pos == 0 {
        code_word_upto(packs, f, 16)
    } else if f == 0 && pos == 1 {
        x0
    } else if f == 0 && pos == 2 {
        xn
    } else {
        let s = slot_of(f, pos);
        if s < packs.len() {
            packs[s].word
        } else {
            0
        }
    }
}

/// The words of the frames that hold `packs`.
pub open spec fn layout(packs: Seq<Pack>, x0: u32, xn: u32) -> Seq<u32> {
    Seq::new(16 * frame_count(packs.len()), |j: int| layout_word(packs, x0, xn, j))
}

/// The Steim-1 encoding of `samples` with `d0` as the difference that precedes the
/// first sample: no byte for no sample, else the frames, written big-endian, with
/// the first and the last sample as the integration constants.
pub open spec fn steim1_encode(samples: Seq<i32>, d0: i32) -> Seq<u8> {
    if samples.len() == 0 {
        seq![]
    } else {
        words_be_bytes(
            layout(steim1_packs(diffs_of(samples, d0), 0), samples[0] as u32, samples.last() as u32),
        )
    }
}

/// The Steim-2 encoding of one sample or more, with `x0` and `xn` as the words
/// written for the first and the last sample, or the error when a difference needs
/// more than 30 bits.
pub open spec fn steim2_encode_frames(samples: Seq<i32>, d0: i32, x0: i32, xn: i32) -> Result<Seq<u8>, SteimError> {
    match steim2_packs(diffs_of(samples, d0), 0) {
        None => Err(SteimError::DiffTooWide),
        Some(packs) => Ok(words_be_bytes(layout(packs, x0 as u32, xn as u32))),
    }
}

/// `x` converted to big-endian byte order on a big-endian target (`big`) or a
/// little-endian one.
pub open spec fn to_be_on(big: bool, x: i32) -> i32 {
    if big {
        x
    } else {
        swap32(x)
    }
}

/// Each of `v` converted to big-endian byte order on the given target.
pub open spec fn to_be_all_on(big: bool, v: Seq<i32>) -> Seq<i32> {
    Seq::new(v.len(), |i: int| to_be_on(big, v[i]))
}

/// The Steim-2 encoding of one sample or more, with the first and the last sample
/// as the integration constants, or the error when a difference needs more than 30
/// bits.
pub open spec fn steim2_encode(samples: Seq<i32>, d0: i32) -> Result<Seq<u8>, SteimError> {
    steim2_encode_frames(samples, d0, samples[0], samples.last())
}

} // verus!
