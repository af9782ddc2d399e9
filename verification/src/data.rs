//! The body of a record, the offsets of the fixed header fields, the simple sample
//! encodings and the record checksum.

use vstd::prelude::*;
use crate::header::{encoding_code, fixed_header_bytes, flag_bits, header_bytes, MS3Header};
use crate::words::{u16_le_bytes, u32_be_bytes, u32_le_bytes, u64_le_bytes};

verus! {

/// The length of the fixed part of a record header, the two indicator bytes "MS" included.
pub const FIXED_HEADER_LEN: usize = 40;

/// The offset of the CRC field in a record.
pub const CASTAGOLI_OFFSET: usize = 28;

/// The unsigned value of bytes `off`, `off + 1` of `b`, little endian.
pub open spec fn le_u16_at(b: Seq<u8>, off: int) -> u16 {
    (b[off] + 0x100 * b[off + 1]) as u16
}

/// The unsigned value of bytes `off .. off + 4` of `b`, little endian.
pub open spec fn le_u32_at(b: Seq<u8>, off: int) -> u32 {
    (b[off] + 0x100 * b[off + 1] + 0x1_0000 * b[off + 2] + 0x100_0000 * b[off + 3]) as u32
}

/// The unsigned value of bytes `off .. off + 8` of `b`, little endian.
pub open spec fn le_u64_at(b: Seq<u8>, off: int) -> u64 {
    (le_u32_at(b, off) + 0x1_0000_0000 * le_u32_at(b, off + 4)) as u64
}

fn read_u16_le(b: &[u8], off: usize) -> (r: u16)
    requires
        off + 2 <= b@.len(),
    ensures
        r == le_u16_at(b@, off as int),
{
    (b[off] as u16) + 0x100 * (b[off + 1] as u16)
}

fn read_u32_le(b: &[u8], off: usize) -> (r: u32)
    requires
        off + 4 <= b@.len(),
    ensures
        r == le_u32_at(b@, off as int),
{
    let (b0, b1, b2, b3) = (b[off] as u32, b[off + 1] as u32, b[off + 2] as u32, b[off + 3] as u32);
    assert(b0 + 0x100 * b1 + 0x1_0000 * b2 + 0x100_0000 * b3 <= u32::MAX) by (nonlinear_arith)
        requires b0 < 256, b1 < 256, b2 < 256, b3 < 256;
    b0 + 0x100 * b1 + 0x1_0000 * b2 + 0x100_0000 * b3
}

fn read_u64_le(b: &[u8], off: usize) -> (r: u64)
    requires
        off + 8 <= b@.len(),
    ensures
        r == le_u64_at(b@, off as int),
{
    let _len = b.len();
    let lo = read_u32_le(b, off) as u64;
    let hi = read_u32_le(b, off + 4) as u64;
    lo + 0x1_0000_0000 * hi
}

/// format version: UINT8 at offset 2.
pub fn fversion(fixhd: &[u8]) -> (r: u8)
    requires
        fixhd@.len() >= 3,
    ensures
        r == fixhd@[2],
{
    fixhd[2]
}

/// flags: UINT8 at offset 3.
pub fn flags(fixhd: &[u8]) -> (r: u8)
    requires
        fixhd@.len() >= 4,
    ensures
        r == fixhd@[3],
{
    fixhd[3]
}

/// nanosecond: UINT32 at offset 4.
pub fn nanosecond(fixhd: &[u8]) -> (r: u32)
    requires
        fixhd@.len() >= 8,
    ensures
        r == le_u32_at(fixhd@, 4),
{
    read_u32_le(fixhd, 4)
}

/// year: UINT16 at offset 8.
pub fn year(fixhd: &[u8]) -> (r: u16)
    requires
        fixhd@.len() >= 10,
    ensures
        r == le_u16_at(fixhd@, 8),
{
    read_u16_le(fixhd, 8)
}

/// day of year: UINT16 at offset 10.
pub fn day_of_year(fixhd: &[u8]) -> (r: u16)
    requires
        fixhd@.len() >= 12,
    ensures
        r == le_u16_at(fixhd@, 10),
{
    read_u16_le(fixhd, 10)
}

/// hour: UINT8 at offset 12.
pub fn hour(fixhd: &[u8]) -> (r: u8)
    requires
        fixhd@.len() >= 13,
    ensures
        r == fixhd@[12],
{
    fixhd[12]
}

/// minute: UINT8 at offset 13.
pub fn minute(fixhd: &[u8]) -> (r: u8)
    requires
        fixhd@.len() >= 14,
    ensures
        r == fixhd@[13],
{
    fixhd[13]
}

/// second: UINT8 at offset 14.
pub fn second(fixhd: &[u8]) -> (r: u8)
    requires
        fixhd@.len() >= 15,
    ensures
        r == fixhd@[14],
{
    fixhd[14]
}

/// data payload encoding: UINT8 at offset 15.
pub fn data_payload_encoding(fixhd: &[u8]) -> (r: u8)
    requires
        fixhd@.len() >= 16,
    ensures
        r == fixhd@[15],
{
    fixhd[15]
}

/// sample rate: FLOAT64 at offset 16, as its IEEE-754 bits.
pub fn sample_rate(fixhd: &[u8]) -> (r: u64)
    requires
        fixhd@.len() >= 24,
    ensures
        r == le_u64_at(fixhd@, 16),
{
    read_u64_le(fixhd, 16)
}

/// sample count: UINT32 at offset 24.
pub fn sample_count(fixhd: &[u8]) -> (r: u32)
    requires
        fixhd@.len() >= 28,
    ensures
        r == le_u32_at(fixhd@, 24),
{
    read_u32_le(fixhd, 24)
}

/// CRC: UINT32 at offset 28.
pub fn castagoli(fixhd: &[u8]) -> (r: u32)
    requires
        fixhd@.len() >= 32,
    ensures
        r == le_u32_at(fixhd@, 28),
{
    read_u32_le(fixhd, CASTAGOLI_OFFSET)
}

/// data publication version: UINT8 at offset 32.
pub fn data_public_version(fixhd: &[u8]) -> (r: u8)
    requires
        fixhd@.len() >= 33,
    ensures
        r == fixhd@[32],
{
    fixhd[32]
}

/// length of the source identifier: UINT8 at offset 33.
pub fn sid_length(fixhd: &[u8]) -> (r: u8)
    requires
        fixhd@.len() >= 34,
    ensures
        r == fixhd@[33],
{
    fixhd[33]
}

/// length of the extra headers: UINT16 at offset 34.
pub fn extra_headers_length(fixhd: &[u8]) -> (r: u16)
    requires
        fixhd@.len() >= 36,
    ensures
        r == le_u16_at(fixhd@, 34),
{
    read_u16_le(fixhd, 34)
}

/// length of the data payload: UINT32 at offset 36.
pub fn data_payload_length(fixhd: &[u8]) -> (r: u32)
    requires
        fixhd@.len() >= FIXED_HEADER_LEN,
    ensures
        r == le_u32_at(fixhd@, 36),
{
    read_u32_le(fixhd, 36)
}

proof fn lemma_le_u16(v: u16)
    ensures
        u16_le_bytes(v)[0] + 0x100 * u16_le_bytes(v)[1] == v,
{
}

pub(crate) proof fn lemma_le_u32(v: u32)
    ensures
        u32_le_bytes(v)[0] + 0x100 * u32_le_bytes(v)[1] + 0x1_0000 * u32_le_bytes(v)[2] + 0x100_0000 * u32_le_bytes(v)[3] == v,
{
    let b = u32_le_bytes(v);
    assert(b =~= seq![(v % 0x100) as u8, ((v / 0x100) % 0x100) as u8, ((v / 0x1_0000) % 0x100) as u8, (v / 0x100_0000) as u8]) by {
        let be = u32_be_bytes(v);
        assert(b[0] == be[3] && b[1] == be[2] && b[2] == be[1] && b[3] == be[0]);
    }
    assert(v % 0x100 + 0x100 * ((v / 0x100) % 0x100) + 0x1_0000 * ((v / 0x1_0000) % 0x100) + 0x100_0000 * (v / 0x100_0000) == v) by (nonlinear_arith);
}

proof fn lemma_le_u64(v: u64)
    ensures
        ({
            let b = u64_le_bytes(v);
            let lo = b[0] + 0x100 * b[1] + 0x1_0000 * b[2] + 0x100_0000 * b[3];
            let hi = b[4] + 0x100 * b[5] + 0x1_0000 * b[6] + 0x100_0000 * b[7];
            lo + 0x1_0000_0000 * hi == v
        }),
{
    let lo = (v % 0x1_0000_0000) as u32;
    let hi = (v / 0x1_0000_0000) as u32;
    lemma_le_u32(lo);
    lemma_le_u32(hi);
    let b = u64_le_bytes(v);
    assert(b[0] == u32_le_bytes(lo)[0] && b[1] == u32_le_bytes(lo)[1] && b[2] == u32_le_bytes(lo)[2] && b[3] == u32_le_bytes(lo)[3]);
    assert(b[4] == u32_le_bytes(hi)[0] && b[5] == u32_le_bytes(hi)[1] && b[6] == u32_le_bytes(hi)[2] && b[7] == u32_le_bytes(hi)[3]);
    assert(lo + 0x1_0000_0000 * hi == v) by (nonlinear_arith)
        requires lo == v % 0x1_0000_0000, hi == v / 0x1_0000_0000;
}

/// A record that starts with "MS" and the bytes of a header gives back each field of
/// the header from the field readers' offsets, and the source identifier right after
/// the fixed header.
pub proof fn fixed_header_fields_read_back(h: MS3Header)
    ensures
        ({
            let rec = seq![77u8, 83u8] + header_bytes(h);
            &&& rec.len() >= FIXED_HEADER_LEN
            &&& rec[2] == h.format_version
            &&& rec[3] == flag_bits(h.flag)
            &&& le_u32_at(rec, 4) == h.start_time.nanosecond
            &&& le_u16_at(rec, 8) == h.start_time.year
            &&& le_u16_at(rec, 10) == h.start_time.day_of_year
            &&& rec[12] == h.start_time.hour
            &&& rec[13] == h.start_time.minute
            &&& rec[14] == h.start_time.second
            &&& rec[15] == encoding_code(h.data_payload_encoding)
            &&& le_u64_at(rec, 16) == h.sample_rate.raw
            &&& le_u32_at(rec, 24) == h.sample_count
            &&& le_u32_at(rec, CASTAGOLI_OFFSET as int) == h.castagoli
            &&& rec[32] == h.data_public_version
            &&& rec[33] == h.sid_len
            &&& le_u16_at(rec, 34) == h.ex_hd_len
            &&& le_u32_at(rec, 36) == h.data_len
            &&& rec.subrange(FIXED_HEADER_LEN as int, FIXED_HEADER_LEN + vstd::utf8::encode_utf8(h.sid@).len())
                == vstd::utf8::encode_utf8(h.sid@)
        }),
{
    let rec = seq![77u8, 83u8] + header_bytes(h);
    let fx = fixed_header_bytes(h);
    let t = h.start_time;
    assert(fx.len() == 38);
    assert(rec.subrange(2, 40) =~= fx);
    let ns = u32_le_bytes(t.nanosecond);
    let yr = u16_le_bytes(t.year);
    let dy = u16_le_bytes(t.day_of_year);
    let rt = u64_le_bytes(h.sample_rate.raw);
    let ct = u32_le_bytes(h.sample_count);
    let cr = u32_le_bytes(h.castagoli);
    let ex = u16_le_bytes(h.ex_hd_len);
    let dl = u32_le_bytes(h.data_len);
    assert(rec[4] == ns[0] && rec[5] == ns[1] && rec[6] == ns[2] && rec[7] == ns[3]);
    assert(rec[8] == yr[0] && rec[9] == yr[1] && rec[10] == dy[0] && rec[11] == dy[1]);
    assert(rec[16] == rt[0] && rec[17] == rt[1] && rec[18] == rt[2] && rec[19] == rt[3]);
    assert(rec[20] == rt[4] && rec[21] == rt[5] && rec[22] == rt[6] && rec[23] == rt[7]);
    assert(rec[24] == ct[0] && rec[25] == ct[1] && rec[26] == ct[2] && rec[27] == ct[3]);
    assert(rec[28] == cr[0] && rec[29] == cr[1] && rec[30] == cr[2] && rec[31] == cr[3]);
    assert(rec[34] == ex[0] && rec[35] == ex[1]);
    assert(rec[36] == dl[0] && rec[37] == dl[1] && rec[38] == dl[2] && rec[39] == dl[3]);
    lemma_le_u32(t.nanosecond);
    lemma_le_u16(t.year);
    lemma_le_u16(t.day_of_year);
    lemma_le_u64(h.sample_rate.raw);
    lemma_le_u32(h.sample_count);
    lemma_le_u32(h.castagoli);
    lemma_le_u16(h.ex_hd_len);
    lemma_le_u32(h.data_len);
    let sb = vstd::utf8::encode_utf8(h.sid@);
    assert(rec.subrange(40, 40 + sb.len() as int) =~= sb);
}

/// The decoded samples of a record. `F32` and `F64` hold the IEEE-754 bits of each sample.
#[derive(Debug, Clone)]
pub enum DecodedData {
    /// No samples.
    NoData,
    Text(String),
    F32(Vec<u32>),
    F64(Vec<u64>),
    I16(Vec<i16>),
    I32(Vec<i32>),
    Opaque(Vec<u8>),
}

impl Default for DecodedData {
    fn default() -> (r: DecodedData)
        ensures
            r is NoData,
    {
        DecodedData::NoData
    }
}

/// The body of a record: the raw payload, whose encoding and length the header
/// gives, and the samples decoded from it or to be encoded into it.
pub struct MS3Data {
    pub raw: Vec<u8>,
    pub decoded: DecodedData,
}

impl Default for MS3Data {
    fn default() -> (r: MS3Data)
        ensures
            r.raw@ == Seq::<u8>::empty(),
            r.decoded is NoData,
    {
        MS3Data { raw: Vec::new(), decoded: DecodedData::NoData }
    }
}

impl MS3Data {
    /// The raw payload.
    pub fn raw(&self) -> (r: &[u8])
        ensures
            r@ == self.raw@,
    {
        self.raw.as_slice()
    }

    /// The raw payload, to be changed in place.
    pub fn raw_mut(&mut self) -> (r: &mut Vec<u8>)
        ensures
            *r == old(self).raw,
            final(self).raw == *final(r),
            final(self).decoded == old(self).decoded,
    {
        &mut self.raw
    }
}

/// The little-endian 16-bit integers that `b` is made of.
pub open spec fn le_i16s(b: Seq<u8>) -> Seq<i16> {
    Seq::new(b.len() / 2, |j: int| le_u16_at(b, 2 * j) as i16)
}

/// The little-endian 32-bit words that `b` is made of, unsigned.
pub open spec fn le_u32s(b: Seq<u8>) -> Seq<u32> {
    Seq::new(b.len() / 4, |j: int| le_u32_at(b, 4 * j))
}

/// The little-endian 32-bit integers that `b` is made of.
pub open spec fn le_i32s(b: Seq<u8>) -> Seq<i32> {
    Seq::new(b.len() / 4, |j: int| le_u32_at(b, 4 * j) as i32)
}

/// The little-endian 64-bit words that `b` is made of, unsigned.
pub open spec fn le_u64s(b: Seq<u8>) -> Seq<u64> {
    Seq::new(b.len() / 8, |j: int| le_u64_at(b, 8 * j))
}

/// Reads a payload of 16-bit little-endian integers.
pub fn decode_i16_le(raw: &[u8]) -> (r: Vec<i16>)
    requires
        raw@.len() % 2 == 0,
    ensures
        r@ == le_i16s(raw@),
{
    let n = raw.len() / 2;
    let mut out: Vec<i16> = Vec::with_capacity(n);
    let mut j: usize = 0;
    while j < n
        invariant
            n == raw@.len() / 2,
            raw@.len() <= usize::MAX,
            j <= n,
            out@ == le_i16s(raw@).take(j as int),
        decreases n - j,
    {
        assert(2 * j + 2 <= raw@.len()) by (nonlinear_arith)
            requires j < n, n == raw@.len() / 2;
        let v = read_u16_le(raw, 2 * j) as i16;
        out.push(v);
        proof {
            assert(out@ =~= le_i16s(raw@).take(j + 1));
        }
        j = j + 1;
    }
    proof {
        assert(out@ =~= le_i16s(raw@));
    }
    out
}

/// Reads a payload of 32-bit little-endian words, unsigned (the bits of 32-bit floats).
pub fn decode_u32_le(raw: &[u8]) -> (r: Vec<u32>)
    requires
        raw@.len() % 4 == 0,
    ensures
        r@ == le_u32s(raw@),
{
    let n = raw.len() / 4;
    let mut out: Vec<u32> = Vec::with_capacity(n);
    let mut j: usize = 0;
    while j < n
        invariant
            n == raw@.len() / 4,
            raw@.len() <= usize::MAX,
            j <= n,
            out@ == le_u32s(raw@).take(j as int),
        decreases n - j,
    {
        assert(4 * j + 4 <= raw@.len()) by (nonlinear_arith)
            requires j < n, n == raw@.len() / 4;
        let v = read_u32_le(raw, 4 * j);
        out.push(v);
        proof {
            assert(out@ =~= le_u32s(raw@).take(j + 1));
        }
        j = j + 1;
    }
    proof {
        assert(out@ =~= le_u32s(raw@));
    }
    out
}

/// Reads a payload of 32-bit little-endian integers.
pub fn decode_i32_le(raw: &[u8]) -> (r: Vec<i32>)
    requires
        raw@.len() % 4 == 0,
    ensures
        r@ == le_i32s(raw@),
{
    let n = raw.len() / 4;
    let mut out: Vec<i32> = Vec::with_capacity(n);
    let mut j: usize = 0;
    while j < n
        invariant
            n == raw@.len() / 4,
            raw@.len() <= usize::MAX,
            j <= n,
            out@ == le_i32s(raw@).take(j as int),
        decreases n - j,
    {
        assert(4 * j + 4 <= raw@.len()) by (nonlinear_arith)
            requires j < n, n == raw@.len() / 4;
        let v = read_u32_le(raw, 4 * j) as i32;
        out.push(v);
        proof {
            assert(out@ =~= le_i32s(raw@).take(j + 1));
        }
        j = j + 1;
    }
    proof {
        assert(out@ =~= le_i32s(raw@));
    }
    out
}

/// Reads a payload of 64-bit little-endian words, unsigned (the bits of 64-bit floats).
pub fn decode_u64_le(raw: &[u8]) -> (r: Vec<u64>)
    requires
        raw@.len() % 8 == 0,
    ensures
        r@ == le_u64s(raw@),
{
    let n = raw.len() / 8;
    let mut out: Vec<u64> = Vec::with_capacity(n);
    let mut j: usize = 0;
    while j < n
        invariant
            n == raw@.len() / 8,
            raw@.len() <= usize::MAX,
            j <= n,
            out@ == le_u64s(raw@).take(j as int),
        decreases n - j,
    {
        assert(8 * j + 8 <= raw@.len()) by (nonlinear_arith)
            requires j < n, n == raw@.len() / 8;
        let v = read_u64_le(raw, 8 * j);
        out.push(v);
        proof {
            assert(out@ =~= le_u64s(raw@).take(j + 1));
        }
        j = j + 1;
    }
    proof {
        assert(out@ =~= le_u64s(raw@));
    }
    out
}

/// The CRC-32C (Castagnoli, iSCSI) checksum of `bytes`.
pub uninterp spec fn crc32c_checksum(bytes: Seq<u8>) -> u32;

/// `crc::Crc::<u32>::new(&crc::CRC_32_ISCSI).checksum(bytes)`: the CRC-32C checksum
/// of the bytes, polynomial 0x1EDC6F41 (reversed 0x82F63B78), as RFC 3309 defines
/// it. The contract only names the result; it depends on the bytes alone.
#[verifier::external_body]
fn crc32c(bytes: &[u8]) -> (r: u32)
    ensures
        r == crc32c_checksum(bytes@),
{
    crc::Crc::<u32>::new(&crc::CRC_32_ISCSI).checksum(bytes)
}

/// The bytes of a record with its 4-byte CRC field set to zeros.
pub open spec fn crc_zeroed(record: Seq<u8>) -> Seq<u8> {
    record.subrange(0, CASTAGOLI_OFFSET as int) + seq![0u8, 0u8, 0u8, 0u8] + record.subrange(
        CASTAGOLI_OFFSET + 4,
        record.len() as int,
    )
}

/// The bytes that the CRC of a record is taken over are the record's bytes with the
/// four bytes of its CRC field, 28 to 31, set to zero, and every other byte as it is.
pub proof fn crc_input_zeroes_only_the_crc_field(record: Seq<u8>)
    requires
        record.len() >= 32,
    ensures
        crc_zeroed(record).len() == record.len(),
        forall|i: int|
            0 <= i < record.len() ==> #[trigger] crc_zeroed(record)[i] == if 28 <= i < 32 {
                0u8
            } else {
                record[i]
            },
{
    let z = crc_zeroed(record);
    assert forall|i: int| 0 <= i < record.len() implies #[trigger] z[i] == if 28 <= i < 32 {
        0u8
    } else {
        record[i]
    } by {
        if i < 28 {
            assert(z[i] == record.subrange(0, 28)[i]);
        } else if i < 32 {
            assert(z[i] == seq![0u8, 0u8, 0u8, 0u8][i - 28]);
        } else {
            assert(z[i] == record.subrange(32, record.len() as int)[i - 32]);
        }
    }
}

/// The CRC value of a record does not depend on what its CRC field holds: two records
/// of one length that agree outside that field get the same value.
pub proof fn record_crc_ignores_crc_field(a: Seq<u8>, b: Seq<u8>)
    requires
        a.len() == b.len(),
        a.len() >= CASTAGOLI_OFFSET + 4,
        forall|i: int|
            0 <= i < a.len() && !(CASTAGOLI_OFFSET <= i < CASTAGOLI_OFFSET + 4) ==> a[i] == b[i],
    ensures
        crc32c_checksum(crc_zeroed(a)) == crc32c_checksum(crc_zeroed(b)),
{
    assert(crc_zeroed(a) =~= crc_zeroed(b));
}

/// The CRC-32C value of a complete record: the checksum of its bytes with the CRC
/// field set to zeros.
pub fn record_crc(record: &[u8]) -> (r: u32)
    requires
        record@.len() >= CASTAGOLI_OFFSET + 4,
    ensures
        r == crc32c_checksum(crc_zeroed(record@)),
{
    let mut bytes: Vec<u8> = vstd::slice::slice_to_vec(record);
    bytes.set(CASTAGOLI_OFFSET, 0);
    bytes.set(CASTAGOLI_OFFSET + 1, 0);
    bytes.set(CASTAGOLI_OFFSET + 2, 0);
    bytes.set(CASTAGOLI_OFFSET + 3, 0);
    proof {
        assert(bytes@ =~= crc_zeroed(record@));
    }
    crc32c(bytes.as_slice())
}

} // verus!
