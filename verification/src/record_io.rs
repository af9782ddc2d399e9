//! A record as bytes: "MS", the header, the source identifier, the extra headers and
//! the data payload; writing it, setting its CRC, and reading it back.

use vstd::prelude::*;
use vstd::utf8::{decode_utf8, encode_utf8, encode_utf8_decode_utf8, encode_utf8_valid_utf8, valid_utf8};
use crate::data::{
    crc32c_checksum, crc_zeroed, data_payload_length, data_public_version, day_of_year, extra_headers_length,
    fixed_header_fields_read_back, flags, fversion, hour, le_u16_at, le_u32_at, le_u64_at, minute, nanosecond,
    record_crc, sample_count, sample_rate, second, sid_length, year, castagoli, data_payload_encoding, DecodedData,
    MS3Data, CASTAGOLI_OFFSET, FIXED_HEADER_LEN,
};
use crate::header::{
    encoding_of_code, fixed_header_bytes, fixed_header_head, fixed_header_tail, flag_bits, flag_of_bits, header_bytes, DataEncoding, FieldFlag, MS3Header,
    MS3Time, SampleRP,
};
use crate::record::MS3Record;
use crate::words::u32_le_bytes;

verus! {

/// Why bytes could not be read as a record.
#[derive(Debug, Clone, Copy, PartialEq, Eq, Structural)]
pub enum RecordError {
    /// The bytes end before the fixed header, or before the lengths it states.
    TooShort,
    /// The bytes do not start with the record indicator "MS".
    NotARecord,
    /// The source identifier is not valid UTF-8.
    InvalidSid,
}

/// The bytes of a record: "MS", the header's bytes, then the data payload.
pub open spec fn record_bytes(h: MS3Header, raw: Seq<u8>) -> Seq<u8> {
    seq![77u8, 83u8] + header_bytes(h) + raw
}

/// The length of the source identifier that a record's fixed header states.
pub open spec fn stated_sid_len(b: Seq<u8>) -> int {
    b[33] as int
}

/// Where the extra headers of a record start.
pub open spec fn extra_start(b: Seq<u8>) -> int {
    FIXED_HEADER_LEN + stated_sid_len(b)
}

/// Where the data payload of a record starts.
pub open spec fn data_start(b: Seq<u8>) -> int {
    extra_start(b) + le_u16_at(b, 34)
}

/// The length of a record that its fixed header states.
pub open spec fn stated_record_len(b: Seq<u8>) -> int {
    data_start(b) + le_u32_at(b, 36)
}

/// The error that reading a record from `b` gives, if any, in the order the checks
/// are made.
pub open spec fn record_error(b: Seq<u8>) -> Option<RecordError> {
    if b.len() < FIXED_HEADER_LEN {
        Some(RecordError::TooShort)
    } else if b[0] != 77u8 || b[1] != 83u8 {
        Some(RecordError::NotARecord)
    } else if b.len() < stated_record_len(b) {
        Some(RecordError::TooShort)
    } else if !valid_utf8(b.subrange(FIXED_HEADER_LEN as int, extra_start(b))) {
        Some(RecordError::InvalidSid)
    } else {
        None
    }
}

/// `rec` holds what the record at the start of `b` states: each fixed header field
/// read at its offset, the source identifier decoded from UTF-8, the extra headers
/// (none when their length is 0) and the data payload, not yet decoded.
pub open spec fn record_read_from(rec: MS3Record, b: Seq<u8>) -> bool {
    let h = rec.header;
    &&& h.format_version == b[2]
    &&& h.flag == flag_of_bits(b[3])
    &&& h.start_time == (MS3Time {
        nanosecond: le_u32_at(b, 4),
        year: le_u16_at(b, 8),
        day_of_year: le_u16_at(b, 10),
        hour: b[12],
        minute: b[13],
        second: b[14],
    })
    &&& h.data_payload_encoding == encoding_of_code(b[15])
    &&& h.sample_rate.raw == le_u64_at(b, 16)
    &&& h.sample_count == le_u32_at(b, 24)
    &&& h.castagoli == le_u32_at(b, CASTAGOLI_OFFSET as int)
    &&& h.data_public_version == b[32]
    &&& h.sid_len == b[33]
    &&& h.ex_hd_len == le_u16_at(b, 34)
    &&& h.data_len == le_u32_at(b, 36)
    &&& h.sid@ == decode_utf8(b.subrange(FIXED_HEADER_LEN as int, extra_start(b)))
    &&& if le_u16_at(b, 34) == 0 {
        h.ex_hd is None
    } else {
        h.ex_hd matches Some(e) && e@ == b.subrange(extra_start(b), data_start(b))
    }
    &&& rec.data.raw@ == b.subrange(data_start(b), stated_record_len(b))
    &&& rec.data.decoded is NoData
}

/// The lengths that `h` states agree with what it holds and with the payload `raw`,
/// and its flags and encoding are each held in the one form that their bits give.
pub open spec fn record_consistent(h: MS3Header, raw: Seq<u8>) -> bool {
    &&& h.sid_len as int == encode_utf8(h.sid@).len()
    &&& match h.ex_hd {
        Some(e) => h.ex_hd_len > 0 && e@.len() == h.ex_hd_len,
        None => h.ex_hd_len == 0,
    }
    &&& h.data_len as int == raw.len()
    &&& flag_of_bits(flag_bits(h.flag)) == h.flag
    &&& h.data_payload_encoding.wf()
}

/// `rec` holds the header `h` and the payload `raw`, each string and byte vector
/// taken by its contents.
pub open spec fn record_holds(rec: MS3Record, h: MS3Header, raw: Seq<u8>) -> bool {
    let g = rec.header;
    &&& g.format_version == h.format_version
    &&& g.flag == h.flag
    &&& g.start_time == h.start_time
    &&& g.data_payload_encoding == h.data_payload_encoding
    &&& g.sample_rate == h.sample_rate
    &&& g.sample_count == h.sample_count
    &&& g.castagoli == h.castagoli
    &&& g.data_public_version == h.data_public_version
    &&& g.sid_len == h.sid_len
    &&& g.ex_hd_len == h.ex_hd_len
    &&& g.data_len == h.data_len
    &&& g.sid@ == h.sid@
    &&& match h.ex_hd {
        Some(e) => g.ex_hd matches Some(f) && f@ == e@,
        None => g.ex_hd is None,
    }
    &&& rec.data.raw@ == raw
}

/// `a` and `b` agree in every field but the CRC.
pub open spec fn same_but_crc(a: MS3Header, b: MS3Header) -> bool {
    &&& a.format_version == b.format_version
    &&& a.flag == b.flag
    &&& a.start_time == b.start_time
    &&& a.data_payload_encoding == b.data_payload_encoding
    &&& a.sample_rate == b.sample_rate
    &&& a.sample_count == b.sample_count
    &&& a.data_public_version == b.data_public_version
    &&& a.sid_len == b.sid_len
    &&& a.ex_hd_len == b.ex_hd_len
    &&& a.data_len == b.data_len
    &&& a.sid == b.sid
    &&& a.ex_hd == b.ex_hd
}

/// `String::from_utf8`: the string whose UTF-8 encoding is `bytes`, or `None` when
/// the bytes are not valid UTF-8.
#[verifier::external_body]
fn string_from_utf8(bytes: Vec<u8>) -> (r: Option<String>)
    ensures
        r is Some <==> valid_utf8(bytes@),
        r matches Some(s) ==> s@ == decode_utf8(bytes@),
{
    String::from_utf8(bytes).ok()
}

impl MS3Record {
    /// The bytes of the record: "MS", the header, the source identifier, the extra
    /// headers and the data payload.
    pub fn to_bytes(&self) -> (r: Vec<u8>)
        ensures
            r@ == record_bytes(self.header, self.data.raw@),
    {
        let mut out: Vec<u8> = Vec::new();
        out.push(77u8);
        out.push(83u8);
        let mut h = self.header.bytes();
        out.append(&mut h);
        out.extend_from_slice(self.data.raw.as_slice());
        proof {
            assert(out@ =~= record_bytes(self.header, self.data.raw@));
        }
        out
    }

    /// Sets the CRC field of the header to the CRC-32C of the record's bytes with
    /// that field set to zeros.
    pub fn update_crc(&mut self)
        ensures
            final(self).header.castagoli == crc32c_checksum(crc_zeroed(record_bytes(old(self).header, old(self).data.raw@))),
            same_but_crc(final(self).header, old(self).header),
            final(self).data == old(self).data,
    {
        let bytes = self.to_bytes();
        proof {
            fixed_header_fields_read_back(self.header);
            assert(bytes@.len() >= CASTAGOLI_OFFSET + 4);
        }
        let crc = record_crc(bytes.as_slice());
        self.header.castagoli = crc;
    }

    /// Reads the record at the start of `bytes`, and gives it with its length. The
    /// payload is left undecoded.
    pub fn from_bytes(bytes: &[u8]) -> (r: Result<(MS3Record, usize), RecordError>)
        ensures
            match record_error(bytes@) {
                Some(e) => r == Err::<(MS3Record, usize), RecordError>(e),
                None => r matches Ok((rec, len)) && len == stated_record_len(bytes@) && record_read_from(rec, bytes@),
            },
    {
        if bytes.len() < FIXED_HEADER_LEN {
            return Err(RecordError::TooShort);
        }
        if bytes[0] != 77u8 || bytes[1] != 83u8 {
            return Err(RecordError::NotARecord);
        }
        let sid_len = sid_length(bytes) as u64;
        let ex_len = extra_headers_length(bytes) as u64;
        let data_len = data_payload_length(bytes) as u64;
        let total64: u64 = 40 + sid_len + ex_len + data_len;
        if total64 > bytes.len() as u64 {
            return Err(RecordError::TooShort);
        }
        let sid_end: usize = (40 + sid_len) as usize;
        let ex_end: usize = (40 + sid_len + ex_len) as usize;
        let total: usize = total64 as usize;
        let sid_bytes = vstd::slice::slice_to_vec(vstd::slice::slice_subrange(bytes, FIXED_HEADER_LEN, sid_end));
        let sid = match string_from_utf8(sid_bytes) {
            Some(s) => s,
            None => {
                return Err(RecordError::InvalidSid);
            },
        };
        let ex_hd = if ex_len == 0u64 {
            None
        } else {
            Some(vstd::slice::slice_to_vec(vstd::slice::slice_subrange(bytes, sid_end, ex_end)))
        };
        let raw = vstd::slice::slice_to_vec(vstd::slice::slice_subrange(bytes, ex_end, total));
        let start_time = MS3Time {
            nanosecond: nanosecond(bytes),
            year: year(bytes),
            day_of_year: day_of_year(bytes),
            hour: hour(bytes),
            minute: minute(bytes),
            second: second(bytes),
        };
        let header = MS3Header {
            format_version: fversion(bytes),
            flag: FieldFlag::from_bits_retain(flags(bytes)),
            start_time,
            data_payload_encoding: DataEncoding::from_bits_retain(data_payload_encoding(bytes)),
            sample_rate: SampleRP::from_raw_bits(sample_rate(bytes)),
            sample_count: sample_count(bytes),
            castagoli: castagoli(bytes),
            data_public_version: data_public_version(bytes),
            sid_len: sid_length(bytes),
            ex_hd_len: extra_headers_length(bytes),
            data_len: data_payload_length(bytes),
            sid,
            ex_hd,
        };
        Ok((MS3Record { header, data: MS3Data { raw, decoded: DecodedData::NoData } }, total))
    }
}

/// Reading back a written record: the bytes of a record whose stated lengths agree
/// with what it holds, followed by anything, read as a record of that length which
/// holds the same header and payload.
#[verifier::spinoff_prover]
#[verifier::rlimit(40)]
pub proof fn record_read_back(h: MS3Header, raw: Seq<u8>, rest: Seq<u8>, rec: MS3Record)
    requires
        record_consistent(h, raw),
    ensures
        record_error(record_bytes(h, raw) + rest) is None,
        stated_record_len(record_bytes(h, raw) + rest) == record_bytes(h, raw).len(),
        record_read_from(rec, record_bytes(h, raw) + rest) ==> record_holds(rec, h, raw),
{
    let p = seq![77u8, 83u8] + header_bytes(h);
    let b = record_bytes(h, raw) + rest;
    fixed_header_fields_read_back(h);
    let sb = encode_utf8(h.sid@);
    let eb: Seq<u8> = match h.ex_hd {
        Some(e) => e@,
        None => seq![],
    };
    assert(header_bytes(h) == fixed_header_bytes(h) + sb + eb);
    assert(fixed_header_bytes(h).len() == 38);
    assert(p.len() == 40 + sb.len() + eb.len());
    assert(record_bytes(h, raw) == p + raw);
    assert forall|i: int| 0 <= i < p.len() implies #[trigger] b[i] == p[i] by {
        assert(b[i] == (p + raw)[i]);
    }
    assert(b[0] == 77u8 && b[1] == 83u8);
    assert(b[2] == p[2] && b[3] == p[3] && b[12] == p[12] && b[13] == p[13] && b[14] == p[14]);
    assert(b[15] == p[15] && b[32] == p[32] && b[33] == p[33]);
    assert(le_u16_at(b, 34) == le_u16_at(p, 34) && le_u32_at(b, 36) == le_u32_at(p, 36)) by {
        assert(b[34] == p[34] && b[35] == p[35] && b[36] == p[36] && b[37] == p[37] && b[38] == p[38] && b[39]
            == p[39]);
    }
    assert(le_u32_at(b, 4) == le_u32_at(p, 4)) by {
        assert(b[4] == p[4] && b[5] == p[5] && b[6] == p[6] && b[7] == p[7]);
    }
    assert(le_u16_at(b, 8) == le_u16_at(p, 8) && le_u16_at(b, 10) == le_u16_at(p, 10)) by {
        assert(b[8] == p[8] && b[9] == p[9] && b[10] == p[10] && b[11] == p[11]);
    }
    assert(le_u64_at(b, 16) == le_u64_at(p, 16)) by {
        assert(b[16] == p[16] && b[17] == p[17] && b[18] == p[18] && b[19] == p[19]);
        assert(b[20] == p[20] && b[21] == p[21] && b[22] == p[22] && b[23] == p[23]);
    }
    assert(le_u32_at(b, 24) == le_u32_at(p, 24) && le_u32_at(b, 28) == le_u32_at(p, 28)) by {
        assert(b[24] == p[24] && b[25] == p[25] && b[26] == p[26] && b[27] == p[27]);
        assert(b[28] == p[28] && b[29] == p[29] && b[30] == p[30] && b[31] == p[31]);
    }
    assert(stated_sid_len(b) == sb.len());
    assert(le_u16_at(b, 34) == eb.len());
    assert(le_u32_at(b, 36) == raw.len());
    assert(b.subrange(40, 40 + sb.len() as int) =~= sb);
    assert(b.subrange(40 + sb.len() as int, 40 + sb.len() + eb.len() as int) =~= eb);
    assert(b.subrange(p.len() as int, p.len() + raw.len() as int) =~= raw);
    encode_utf8_valid_utf8(h.sid@);
    encode_utf8_decode_utf8(h.sid@);
}

/// The offsets at which the records of `b` from `pos` on start, each record
/// following the one before, or the error of the first record that cannot be read.
pub open spec fn record_starts(b: Seq<u8>, pos: int) -> Result<Seq<int>, RecordError>
    decreases b.len() - pos,
{
    if pos >= b.len() || pos < 0 {
        Ok(seq![])
    } else {
        let rest = b.subrange(pos, b.len() as int);
        match record_error(rest) {
            Some(e) => Err(e),
            None => match record_starts(b, pos + stated_record_len(rest)) {
                Ok(s) => Ok(seq![pos] + s),
                Err(e) => Err(e),
            },
        }
    }
}

/// `done` followed by the offsets that `r` holds, or the error of `r`.
pub open spec fn starts_after(done: Seq<int>, r: Result<Seq<int>, RecordError>) -> Result<Seq<int>, RecordError> {
    match r {
        Ok(s) => Ok(done + s),
        Err(e) => Err(e),
    }
}

/// A volume: the records that a stretch of bytes holds, one after the other.
pub struct MS3Volume {
    pub records: Vec<MS3Record>,
}

impl MS3Volume {
    /// Reads the records of `bytes`, one after the other, to the end; fails with the
    /// error of the first record that cannot be read.
    pub fn from_bytes(bytes: &[u8]) -> (r: Result<MS3Volume, RecordError>)
        ensures
            match record_starts(bytes@, 0) {
                Err(e) => r == Err::<MS3Volume, RecordError>(e),
                Ok(s) => r matches Ok(v) && v.records@.len() == s.len() && forall|i: int|
                    0 <= i < s.len() ==> record_read_from(
                        #[trigger] v.records@[i],
                        bytes@.subrange(s[i], bytes@.len() as int),
                    ),
            },
    {
        let mut records: Vec<MS3Record> = Vec::new();
        let mut pos: usize = 0;
        let ghost mut done: Seq<int> = seq![];
        while pos < bytes.len()
            invariant
                pos <= bytes@.len(),
                records@.len() == done.len(),
                forall|i: int|
                    0 <= i < done.len() ==> record_read_from(
                        #[trigger] records@[i],
                        bytes@.subrange(done[i], bytes@.len() as int),
                    ),
                record_starts(bytes@, 0) == starts_after(done, record_starts(bytes@, pos as int)),
            decreases bytes@.len() - pos,
        {
            let rest = vstd::slice::slice_subrange(bytes, pos, bytes.len());
            match MS3Record::from_bytes(rest) {
                Err(e) => {
                    return Err(e);
                },
                Ok((rec, n)) => {
                    proof {
                        let next = record_starts(bytes@, pos + n);
                        match next {
                            Ok(s) => {
                                assert(done + (seq![pos as int] + s) =~= done.push(pos as int) + s);
                            },
                            Err(_) => {},
                        }
                        done = done.push(pos as int);
                    }
                    records.push(rec);
                    pos = pos + n;
                },
            }
        }
        proof {
            assert(done + seq![] =~= done);
        }
        Ok(MS3Volume { records })
    }
}

proof fn lemma_regroup(a: Seq<u8>, hd: Seq<u8>, c: Seq<u8>, tl: Seq<u8>, sb: Seq<u8>, eb: Seq<u8>, r: Seq<u8>)
    ensures
        (a + ((hd + c + tl) + sb + eb)) + r == (a + hd) + c + (tl + sb + eb + r),
{
    assert((a + ((hd + c + tl) + sb + eb)) + r =~= (a + hd) + c + (tl + sb + eb + r));
}

proof fn lemma_crc_splice(m: Seq<u8>, c1: Seq<u8>, c2: Seq<u8>, t: Seq<u8>)
    requires
        m.len() == CASTAGOLI_OFFSET,
        c1.len() == 4,
        c2.len() == 4,
    ensures
        crc_zeroed(m + c1 + t) == crc_zeroed(m + c2 + t),
        le_u32_at(m + c1 + t, CASTAGOLI_OFFSET as int) == le_u32_at(c1, 0),
{
    let b1 = m + c1 + t;
    let b2 = m + c2 + t;
    assert(b1.subrange(0, 28) =~= m);
    assert(b2.subrange(0, 28) =~= m);
    assert(b1.subrange(32, b1.len() as int) =~= t);
    assert(b2.subrange(32, b2.len() as int) =~= t);
    assert(b1[28] == c1[0] && b1[29] == c1[1] && b1[30] == c1[2] && b1[31] == c1[3]);
}

/// A record whose CRC was set passes the CRC check: its CRC field holds the CRC-32C
/// of its bytes with that field set to zeros.
pub proof fn updated_crc_checks(h: MS3Header, raw: Seq<u8>, g: MS3Header)
    requires
        same_but_crc(g, h),
        g.castagoli == crc32c_checksum(crc_zeroed(record_bytes(h, raw))),
    ensures
        le_u32_at(record_bytes(g, raw), CASTAGOLI_OFFSET as int) == crc32c_checksum(crc_zeroed(record_bytes(g, raw))),
{
    let ms = seq![77u8, 83u8];
    let sb = vstd::utf8::encode_utf8(h.sid@);
    let eb: Seq<u8> = match h.ex_hd {
        Some(e) => e@,
        None => seq![],
    };
    assert(fixed_header_head(g) == fixed_header_head(h));
    assert(fixed_header_tail(g) == fixed_header_tail(h));
    let hd = fixed_header_head(h);
    let tl = fixed_header_tail(h);
    let cg = u32_le_bytes(g.castagoli);
    let ch = u32_le_bytes(h.castagoli);
    lemma_regroup(ms, hd, cg, tl, sb, eb, raw);
    lemma_regroup(ms, hd, ch, tl, sb, eb, raw);
    assert(record_bytes(g, raw) == (ms + hd) + cg + (tl + sb + eb + raw));
    assert(record_bytes(h, raw) == (ms + hd) + ch + (tl + sb + eb + raw));
    assert((ms + hd).len() == 28);
    lemma_crc_splice(ms + hd, cg, ch, tl + sb + eb + raw);
    crate::data::lemma_le_u32(g.castagoli);
}

/// The bytes of the records `rs`, one after the other.
pub open spec fn volume_bytes(rs: Seq<MS3Record>) -> Seq<u8>
    decreases rs.len(),
{
    if rs.len() == 0 {
        seq![]
    } else {
        record_bytes(rs[0].header, rs[0].data.raw@) + volume_bytes(rs.drop_first())
    }
}

/// Each offset of `s` moved on by `d`.
pub open spec fn shifted(s: Seq<int>, d: int) -> Seq<int> {
    Seq::new(s.len(), |i: int| s[i] + d)
}

/// Shifting the offsets of a result.
pub open spec fn starts_shifted(r: Result<Seq<int>, RecordError>, d: int) -> Result<Seq<int>, RecordError> {
    match r {
        Ok(s) => Ok(shifted(s, d)),
        Err(e) => Err(e),
    }
}

proof fn lemma_starts_in_range(b: Seq<u8>, pos: int)
    requires
        0 <= pos,
    ensures
        record_starts(b, pos) matches Ok(s) ==> forall|j: int| 0 <= j < s.len() ==> pos <= #[trigger] s[j] < b.len(),
    decreases b.len() - pos,
{
    if pos < b.len() {
        let rest = b.subrange(pos, b.len() as int);
        if record_error(rest) is None {
            lemma_starts_in_range(b, pos + stated_record_len(rest));
        }
    }
}

proof fn lemma_starts_after_prefix(p: Seq<u8>, q: Seq<u8>, k: int)
    requires
        0 <= k,
    ensures
        record_starts(p + q, p.len() + k) == starts_shifted(record_starts(q, k), p.len() as int),
    decreases q.len() - k,
{
    let b = p + q;
    if k < q.len() {
        let rest = b.subrange(p.len() + k, b.len() as int);
        assert(rest =~= q.subrange(k, q.len() as int));
        let l = stated_record_len(rest);
        if record_error(rest) is None {
            lemma_starts_after_prefix(p, q, k + l);
            match record_starts(q, k + l) {
                Ok(s) => {
                    assert(seq![p.len() + k] + shifted(s, p.len() as int) =~= shifted(seq![k] + s, p.len() as int));
                },
                Err(_) => {},
            }
        }
    } else {
        assert(shifted(seq![], p.len() as int) =~= seq![]);
    }
}

/// Reading back a written volume: the bytes of records whose stated lengths agree
/// with what they hold, one after the other, read as that many records, each holding
/// the header and the payload of the record written at its place.
pub proof fn volume_read_back(rs: Seq<MS3Record>)
    requires
        forall|i: int| 0 <= i < rs.len() ==> record_consistent(#[trigger] rs[i].header, rs[i].data.raw@),
    ensures
        record_starts(volume_bytes(rs), 0) matches Ok(s) && s.len() == rs.len() && forall|i: int, rec: MS3Record|
            0 <= i < rs.len() && #[trigger] record_read_from(rec, volume_bytes(rs).subrange(s[i], volume_bytes(rs).len() as int))
                ==> record_holds(rec, rs[i].header, rs[i].data.raw@),
    decreases rs.len(),
{
    let b = volume_bytes(rs);
    if rs.len() == 0 {
        assert(record_starts(b, 0) == Ok::<Seq<int>, RecordError>(seq![]));
    } else {
        let h = rs[0].header;
        let raw = rs[0].data.raw@;
        let r0 = record_bytes(h, raw);
        let tail = rs.drop_first();
        let vt = volume_bytes(tail);
        assert forall|i: int| 0 <= i < tail.len() implies record_consistent(#[trigger] tail[i].header, tail[i].data.raw@) by {
            assert(tail[i] == rs[i + 1]);
        }
        volume_read_back(tail);
        assert(b == r0 + vt);
        assert(b.subrange(0, b.len() as int) =~= b);
        record_read_back(h, raw, vt, rs[0]);
        lemma_starts_after_prefix(r0, vt, 0);
        assert(r0 + vt == b);
        let st = record_starts(vt, 0)->Ok_0;
        lemma_starts_in_range(vt, 0);
        let s = seq![0int] + shifted(st, r0.len() as int);
        assert(record_starts(b, 0) == Ok::<Seq<int>, RecordError>(s));
        assert forall|i: int, rec: MS3Record|
            0 <= i < rs.len() && #[trigger] record_read_from(rec, b.subrange(s[i], b.len() as int)) implies record_holds(
            rec,
            rs[i].header,
            rs[i].data.raw@,
        ) by {
            if i == 0 {
                record_read_back(h, raw, vt, rec);
            } else {
                assert(s[i] == st[i - 1] + r0.len());
                assert(b.subrange(s[i], b.len() as int) =~= vt.subrange(st[i - 1], vt.len() as int));
                assert(rs[i] == tail[i - 1]);
                assert(record_read_from(rec, vt.subrange(st[i - 1], vt.len() as int)));
            }
        }
    }
}

} // verus!
