//! Decoding of Steim-1 and Steim-2 payloads.

use vstd::prelude::*;
use crate::steim_spec::{
    code_word, counted_diffs, decoded_after, field_mask, first_data_word, frame_diffs,
    integrate, result_view, steim1_word_diffs, steim_decode, unpack, valid_layout, word_diffs,
    SteimError, SteimLevel,
};
use crate::utils::sign_extend;
use crate::words::{be_words, read_be_words, swap_bytes_i32};

verus! {

/// The mask of the low `bits` bits.
fn field_mask_exec(bits: u32) -> (r: i32)
    ensures
        r == field_mask(bits),
{
    if bits == 4 {
        0xF
    } else if bits == 5 {
        0x1F
    } else if bits == 6 {
        0x3F
    } else if bits == 8 {
        0xFF
    } else if bits == 10 {
        0x3FF
    } else if bits == 15 {
        0x7FFF
    } else if bits == 16 {
        0xFFFF
    } else {
        0x3FFF_FFFF
    }
}

/// Appends the `count` fields of `bits` bits packed in `w`, first field first.
fn push_fields(w: i32, count: u32, bits: u32, out: &mut Vec<i32>)
    requires
        valid_layout(count, bits),
    ensures
        final(out)@ == old(out)@ + unpack(w, count, bits),
{
    let mask = field_mask_exec(bits);
    let mut k: u32 = 0;
    while k < count
        invariant
            valid_layout(count, bits),
            mask == field_mask(bits),
            k <= count,
            out@ == old(out)@ + unpack(w, count, bits).take(k as int),
        decreases count - k,
    {
        assert(bits * (count - 1 - k) <= 30) by (nonlinear_arith)
            requires valid_layout(count, bits), k < count;
        let shift: u32 = bits * (count - 1 - k);
        let field = sign_extend((w >> shift) & mask, bits);
        out.push(field);
        proof {
            assert(unpack(w, count, bits).take(k + 1) =~= unpack(w, count, bits).take(k as int).push(field));
        }
        k = k + 1;
    }
    proof {
        assert(unpack(w, count, bits).take(count as int) =~= unpack(w, count, bits));
    }
}

/// Appends the differences that the word `word` with code `nib` holds.
fn push_word_diffs(level: SteimLevel, nib: i32, word: i32, swap_flag: bool, out: &mut Vec<i32>) -> (r: Result<(), SteimError>)
    ensures
        match word_diffs(level, nib, word, swap_flag) {
            Ok(d) => r is Ok && final(out)@ == old(out)@ + d,
            Err(e) => r == Err::<(), SteimError>(e),
        },
{
    match level {
        SteimLevel::Steim1 => {
            if nib == 1 {
                // Four 1-byte differences
                push_fields(word, 4, 8, out);
            } else if nib == 2 {
                // Two 2-byte differences
                if swap_flag {
                    out.push(sign_extend((word >> 0u32) & 0xFFFF, 16));
                    out.push(sign_extend((word >> 16u32) & 0xFFFF, 16));
                    proof {
                        assert(final(out)@ =~= old(out)@ + steim1_word_diffs(nib, word, swap_flag));
                    }
                } else {
                    push_fields(word, 2, 16, out);
                }
            } else if nib == 3 {
                // One 4-byte difference
                let wd = if swap_flag { swap_bytes_i32(word) } else { word };
                out.push(sign_extend(wd, 32));
                proof {
                    assert(final(out)@ =~= old(out)@ + steim1_word_diffs(nib, word, swap_flag));
                }
            } else {
                proof {
                    assert(final(out)@ =~= old(out)@ + steim1_word_diffs(nib, word, swap_flag));
                }
            }
            Ok(())
        },
        SteimLevel::Steim2 => {
            if nib == 1 {
                push_fields(word, 4, 8, out);
                Ok(())
            } else if nib == 2 || nib == 3 {
                let v = if swap_flag { swap_bytes_i32(word) } else { word };
                let dnib = (v >> 30u32) & 3;
                if nib == 2 {
                    if dnib == 0 {
                        Err(SteimError::InvalidDnibForNibble10)
                    } else if dnib == 1 {
                        push_fields(v, 1, 30, out);
                        Ok(())
                    } else if dnib == 2 {
                        push_fields(v, 2, 15, out);
                        Ok(())
                    } else {
                        push_fields(v, 3, 10, out);
                        Ok(())
                    }
                } else {
                    if dnib == 0 {
                        push_fields(v, 5, 6, out);
                        Ok(())
                    } else if dnib == 1 {
                        push_fields(v, 6, 5, out);
                        Ok(())
                    } else if dnib == 2 {
                        push_fields(v, 7, 4, out);
                        Ok(())
                    } else {
                        Err(SteimError::InvalidDnibForNibble11)
                    }
                }
            } else {
                proof {
                    assert(final(out)@ =~= old(out)@ + seq![]);
                }
                Ok(())
            }
        },
    }
}

/// The differences held in frame `f` of `words`.
fn frame_diffs_exec(level: SteimLevel, words: &Vec<i32>, f: usize, swap_flag: bool) -> (r: Result<Vec<i32>, SteimError>)
    requires
        16 * f + 16 <= words@.len(),
    ensures
        result_view(r) == frame_diffs(level, words@, f as int, swap_flag, 16),
{
    let wl = words.len();
    let base = 16 * f;
    let code = if swap_flag { swap_bytes_i32(words[base]) } else { words[base] };
    let start: usize = if f == 0 { 3 } else { 1 };
    let mut diff: Vec<i32> = Vec::new();
    let mut widx: usize = start;
    assert(frame_diffs(level, words@, f as int, swap_flag, start as int) == Ok::<Seq<i32>, SteimError>(seq![]));
    while widx < 16
        invariant
            16 * f + 16 <= words@.len(),
            base == 16 * f,
            code == code_word(words@, f as int, swap_flag),
            start == first_data_word(f as int),
            start <= widx <= 16,
            frame_diffs(level, words@, f as int, swap_flag, widx as int) == Ok::<Seq<i32>, SteimError>(diff@),
        decreases 16 - widx,
    {
        let nib = (code >> ((30 - 2 * widx) as u32)) & 3;
        let word = words[base + widx];
        let res = push_word_diffs(level, nib, word, swap_flag, &mut diff);
        match res {
            Err(e) => {
                proof {
                    lemma_frame_diffs_err_stable(level, words@, f as int, swap_flag, widx + 1, 16);
                }
                return Err(e);
            },
            Ok(()) => {},
        }
        widx = widx + 1;
    }
    Ok(diff)
}

/// Once a word of a frame fails to decode, the frame fails with the same error.
proof fn lemma_frame_diffs_err_stable(level: SteimLevel, words: Seq<i32>, f: int, swap: bool, u: int, v: int)
    requires
        u <= v,
        frame_diffs(level, words, f, swap, u) is Err,
    ensures
        frame_diffs(level, words, f, swap, v) == frame_diffs(level, words, f, swap, u),
    decreases v - u,
{
    if u < v {
        lemma_frame_diffs_err_stable(level, words, f, swap, u, v - 1);
    }
}

/// Once a frame fails to decode, the whole payload fails with the same error.
proof fn lemma_decoded_after_err_stable(level: SteimLevel, words: Seq<i32>, f: nat, g: nat, n: nat, swap: bool)
    requires
        f <= g,
        decoded_after(level, words, f, n, swap) is Err,
    ensures
        decoded_after(level, words, g, n, swap) == decoded_after(level, words, f, n, swap),
    decreases g - f,
{
    if f < g {
        lemma_decoded_after_err_stable(level, words, f, (g - 1) as nat, n, swap);
    }
}

/// Extends `output` by the running sums of `ds[start..]`, stopping at `n` samples.
fn integrate_into(output: &mut Vec<i32>, ds: &Vec<i32>, start: usize, n: u32)
    requires
        start <= ds@.len(),
        1 <= old(output)@.len() <= n,
    ensures
        final(output)@ == integrate(old(output)@, ds@.subrange(start as int, ds@.len() as int), n as nat),
        1 <= final(output)@.len() <= n,
{
    let ghost base = output@;
    let mut idx: usize = start;
    while idx < ds.len()
        invariant
            start <= idx <= ds@.len(),
            output@ == integrate(base, ds@.subrange(start as int, idx as int), n as nat),
            1 <= output@.len() <= n,
        decreases ds@.len() - idx,
    {
        if output.len() < n as usize {
            let last = output[output.len() - 1];
            output.push(last.wrapping_add(ds[idx]));
        }
        proof {
            assert(ds@.subrange(start as int, idx + 1).drop_last() =~= ds@.subrange(start as int, idx as int));
        }
        idx = idx + 1;
    }
}

/// Once `n` samples are decoded, the later frames change nothing.
proof fn lemma_decoded_after_stable(level: SteimLevel, words: Seq<i32>, f: nat, g: nat, n: nat, swap: bool)
    requires
        f <= g,
        decoded_after(level, words, f, n, swap) matches Ok(out) && out.len() >= n,
    ensures
        decoded_after(level, words, g, n, swap) == decoded_after(level, words, f, n, swap),
    decreases g - f,
{
    if f < g {
        lemma_decoded_after_stable(level, words, f, (g - 1) as nat, n, swap);
    }
}

/// Decodes the Steim payload `data` of a record of `n` samples, at the given level.
/// The words are read big-endian; with `swap_flag`, the code words, the integration
/// constants and the words whose differences span more than 16 bits are byte-swapped
/// first. Sums are taken modulo 2^32.
pub fn steim_decode_payload(level: SteimLevel, data: &[u8], n: u32, swap_flag: bool) -> (r: Result<Vec<i32>, SteimError>)
    requires
        data@.len() % 4 == 0,
    ensures
        result_view(r) == steim_decode(level, data@, n as nat, swap_flag),
        r matches Ok(v) ==> v@.len() == n,
{
    let words = read_be_words(data);
    if words.len() == 0 {
        return Err(SteimError::EmptyInput);
    }
    if n == 0 {
        return Ok(Vec::new());
    }
    let max_frames = data.len() / 64;
    if max_frames == 0 {
        return Err(SteimError::SampleCountMismatch);
    }
    let ghost wv = words@;
    let mut output: Vec<i32> = Vec::new();
    let mut f: usize = 0;
    while f < max_frames
        invariant_except_break
            decoded_after(level, wv, f as nat, n as nat, swap_flag) == Ok::<Seq<i32>, SteimError>(output@),
        invariant
            words@ == wv,
            wv == be_words(data@),
            max_frames == data@.len() / 64,
            wv.len() == data@.len() / 4,
            1 <= max_frames,
            f <= max_frames,
            n >= 1,
            output@.len() <= n,
            f > 0 ==> output@.len() >= 1,
        ensures
            decoded_after(level, wv, max_frames as nat, n as nat, swap_flag) == Ok::<Seq<i32>, SteimError>(output@),
        decreases max_frames - f,
    {
        if output.len() >= n as usize {
            proof {
                lemma_decoded_after_stable(level, wv, f as nat, max_frames as nat, n as nat, swap_flag);
            }
            break;
        }
        assert(16 * f + 16 <= wv.len()) by (nonlinear_arith)
            requires f < max_frames, max_frames == data@.len() / 64, wv.len() == data@.len() / 4;
        let res = frame_diffs_exec(level, &words, f, swap_flag);
        let ds = match res {
            Err(e) => {
                proof {
                    lemma_decoded_after_err_stable(level, wv, (f + 1) as nat, max_frames as nat, n as nat, swap_flag);
                }
                return Err(e);
            },
            Ok(ds) => ds,
        };
        if f == 0 {
            let x0 = if swap_flag { swap_bytes_i32(words[1]) } else { words[1] };
            output.push(x0);
        }
        let start: usize = if f == 0 && ds.len() > 0 { 1 } else { 0 };
        assert(counted_diffs(f as int, ds@) =~= ds@.subrange(start as int, ds@.len() as int));
        integrate_into(&mut output, &ds, start, n);
        f = f + 1;
    }
    if level == SteimLevel::Steim2 && output.len() == n as usize {
        let xn = if swap_flag { swap_bytes_i32(words[2]) } else { words[2] };
        if output[output.len() - 1] != xn {
            return Err(SteimError::IntegrityCheckFailed);
        }
    }
    if output.len() != n as usize {
        return Err(SteimError::SampleCountMismatch);
    }
    Ok(output)
}

} // verus!
