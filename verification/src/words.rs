//! Byte order helpers: 32-bit words read from and written as big-endian bytes,
//! little-endian integers, and the byte swap of a 32-bit word.

use vstd::prelude::*;

verus! {

/// The unsigned value of four bytes in big-endian order.
pub open spec fn be_u32(b0: u8, b1: u8, b2: u8, b3: u8) -> u32 {
    (b0 * 0x0100_0000int + b1 * 0x0001_0000int + b2 * 0x100int + b3) as u32
}

/// The signed 32-bit word made of bytes `4 * j .. 4 * j + 4` of `data`, big-endian.
pub open spec fn be_word_at(data: Seq<u8>, j: int) -> i32 {
    be_u32(data[4 * j], data[4 * j + 1], data[4 * j + 2], data[4 * j + 3]) as i32
}

/// The big-endian 32-bit words that `data` is made of.
pub open spec fn be_words(data: Seq<u8>) -> Seq<i32> {
    Seq::new(data.len() / 4, |j: int| be_word_at(data, j))
}

/// The four bytes of `u`, most significant first.
pub open spec fn u32_be_bytes(u: u32) -> Seq<u8> {
    seq![
        (u / 0x0100_0000) as u8,
        ((u / 0x0001_0000) % 0x100) as u8,
        ((u / 0x100) % 0x100) as u8,
        (u % 0x100) as u8,
    ]
}

/// The four bytes of `u`, least significant first.
pub open spec fn u32_le_bytes(u: u32) -> Seq<u8> {
    u32_be_bytes(u).reverse()
}

/// The two bytes of `u`, least significant first.
pub open spec fn u16_le_bytes(u: u16) -> Seq<u8> {
    seq![(u % 0x100) as u8, (u / 0x100) as u8]
}

/// The eight bytes of `u`, least significant first.
pub open spec fn u64_le_bytes(u: u64) -> Seq<u8> {
    u32_le_bytes((u % 0x1_0000_0000) as u32) + u32_le_bytes((u / 0x1_0000_0000) as u32)
}

/// The bytes of a sequence of words, each written big-endian.
pub open spec fn words_be_bytes(ws: Seq<u32>) -> Seq<u8> {
    Seq::new(4 * ws.len(), |k: int| u32_be_bytes(ws[k / 4])[k % 4])
}

/// The word `w` with its four bytes in reverse order.
pub open spec fn swap32(w: i32) -> i32 {
    let u = w as u32;
    be_u32((u % 0x100) as u8, ((u / 0x100) % 0x100) as u8, ((u / 0x1_0000) % 0x100) as u8, (u / 0x100_0000) as u8) as i32
}

/// Reverses the byte order of a 32-bit word.
pub fn swap_bytes_i32(w: i32) -> (r: i32)
    ensures
        r == swap32(w),
{
    let u = w as u32;
    let b0 = u % 0x100;
    let b1 = (u / 0x100) % 0x100;
    let b2 = (u / 0x1_0000) % 0x100;
    let b3 = u / 0x100_0000;
    let v: u32 = b0 * 0x0100_0000 + b1 * 0x0001_0000 + b2 * 0x100 + b3;
    v as i32
}

/// Reads `data` as a sequence of big-endian 32-bit words.
pub fn read_be_words(data: &[u8]) -> (r: Vec<i32>)
    requires
        data@.len() % 4 == 0,
    ensures
        r@ == be_words(data@),
{
    let n = data.len() / 4;
    let mut out: Vec<i32> = Vec::with_capacity(n);
    let mut j: usize = 0;
    while j < n
        invariant
            n == data@.len() / 4,
            data@.len() % 4 == 0,
            data@.len() <= usize::MAX,
            j <= n,
            out@ == be_words(data@).take(j as int),
        decreases n - j,
    {
        assert(4 * j + 4 <= data@.len()) by (nonlinear_arith)
            requires j < n, n == data@.len() / 4;
        let i = 4 * j;
        let b0 = data[i] as u32;
        let b1 = data[i + 1] as u32;
        let b2 = data[i + 2] as u32;
        let b3 = data[i + 3] as u32;
        assert(b0 * 0x0100_0000 + b1 * 0x0001_0000 + b2 * 0x100 + b3 <= 0xFFFF_FFFF) by (nonlinear_arith)
            requires b0 < 256, b1 < 256, b2 < 256, b3 < 256;
        let v: u32 = b0 * 0x0100_0000 + b1 * 0x0001_0000 + b2 * 0x100 + b3;
        out.push(v as i32);
        proof {
            assert(be_words(data@).take(j + 1) =~= be_words(data@).take(j as int).push(v as i32));
        }
        j = j + 1;
    }
    proof {
        assert(be_words(data@).take(n as int) =~= be_words(data@));
    }
    out
}

/// Writes each word big-endian, one after the other.
pub fn words_to_be_bytes(ws: &Vec<u32>) -> (r: Vec<u8>)
    requires
        ws@.len() * 4 <= usize::MAX,
    ensures
        r@ == words_be_bytes(ws@),
{
    let mut out: Vec<u8> = Vec::with_capacity(ws.len() * 4);
    let mut j: usize = 0;
    while j < ws.len()
        invariant
            j <= ws@.len(),
            ws@.len() * 4 <= usize::MAX,
            out@ == words_be_bytes(ws@.take(j as int)),
        decreases ws@.len() - j,
    {
        let u = ws[j];
        out.push((u / 0x0100_0000) as u8);
        out.push(((u / 0x0001_0000) % 0x100) as u8);
        out.push(((u / 0x100) % 0x100) as u8);
        out.push((u % 0x100) as u8);
        proof {
            let prev = ws@.take(j as int);
            let next = ws@.take(j + 1);
            assert(next =~= prev.push(u));
            assert forall|k: int| 0 <= k < 4 * next.len() implies #[trigger] out@[k] == words_be_bytes(next)[k] by {
                if k < 4 * prev.len() {
                    assert(next[k / 4] == prev[k / 4]);
                }
            }
            assert(out@ =~= words_be_bytes(next));
        }
        j = j + 1;
    }
    proof {
        assert(ws@.take(ws@.len() as int) =~= ws@);
    }
    out
}

/// Appends the two bytes of `v`, least significant first.
pub fn push_u16_le(out: &mut Vec<u8>, v: u16)
    ensures
        final(out)@ == old(out)@ + u16_le_bytes(v),
{
    out.push((v % 0x100) as u8);
    out.push((v / 0x100) as u8);
    proof {
        assert(final(out)@ =~= old(out)@ + u16_le_bytes(v));
    }
}

/// Appends the four bytes of `v`, least significant first.
pub fn push_u32_le(out: &mut Vec<u8>, v: u32)
    ensures
        final(out)@ == old(out)@ + u32_le_bytes(v),
{
    out.push((v % 0x100) as u8);
    out.push(((v / 0x100) % 0x100) as u8);
    out.push(((v / 0x1_0000) % 0x100) as u8);
    out.push((v / 0x100_0000) as u8);
    proof {
        assert(final(out)@ =~= old(out)@ + u32_le_bytes(v));
    }
}

/// Appends the eight bytes of `v`, least significant first.
pub fn push_u64_le(out: &mut Vec<u8>, v: u64)
    ensures
        final(out)@ == old(out)@ + u64_le_bytes(v),
{
    let ghost start = out@;
    push_u32_le(out, (v % 0x1_0000_0000) as u32);
    push_u32_le(out, (v / 0x1_0000_0000) as u32);
    proof {
        assert(final(out)@ =~= start + u64_le_bytes(v));
    }
}

} // verus!
