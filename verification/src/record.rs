//! A record, a record being built, and the Steim codecs applied to them.

use vstd::prelude::*;
use crate::data::{DecodedData, MS3Data};
use crate::header::{is_default_header, MS3Header};
use crate::steim_decode::steim_decode_payload;
use crate::steim_encode::{steim1_encode_samples, steim2_encode_frames_exec};
use crate::steim_laws::steim2_refuses_wide_diffs;
use crate::steim_spec::{diffs_of, result_view, steim1_encode, steim2_encode, steim_decode, to_be_all_on, SteimError, SteimLevel};
use crate::utils::bitwidth_spec;
use crate::words::{swap32, swap_bytes_i32};
use crate::{Steim1Decode, Steim1Encode, Steim2Decode, Steim2Encode, Steim3Decode, Steim3Encode};

verus! {

/// A miniSEED 3 record: a header and the data payload it describes.
pub struct MS3Record {
    pub header: MS3Header,
    pub data: MS3Data,
}

/// A payload that a Steim decoder can read: it is made of whole 32-bit words.
pub open spec fn steim_decodable_payload(raw: Seq<u8>, n: u32) -> bool {
    raw.len() % 4 == 0
}

impl MS3Record {
    /// The record made of `header` and `data`.
    pub fn new(header: MS3Header, data: MS3Data) -> (r: MS3Record)
        ensures
            r.header == header,
            r.data == data,
    {
        MS3Record { header, data }
    }

    /// The raw data payload.
    pub fn data_raw(&self) -> (r: &[u8])
        ensures
            r@ == self.data.raw@,
    {
        self.data.raw()
    }

    /// The number of samples that the header announces.
    pub fn sample_count(&self) -> (r: u32)
        ensures
            r == self.header.sample_count,
    {
        self.header.sample_count
    }

    /// The source identifier.
    pub fn sid(&self) -> (r: &str)
        ensures
            r@ == self.header.sid@,
    {
        self.header.sid.as_str()
    }
}

impl Steim1Decode for MS3Record {
    open spec fn steim1_decodable(&self) -> bool {
        steim_decodable_payload(self.data.raw@, self.header.sample_count)
    }

    /// Decodes the Steim-1 payload into as many samples as the header announces.
    fn decode_steim1(&self, swap_flag: bool) -> (r: Result<Vec<i32>, SteimError>)
        ensures
            result_view(r) == steim_decode(SteimLevel::Steim1, self.data.raw@, self.header.sample_count as nat, swap_flag),
            r matches Ok(v) ==> v@.len() == self.header.sample_count,
    {
        steim_decode_payload(SteimLevel::Steim1, self.data_raw(), self.sample_count(), swap_flag)
    }
}

impl Steim2Decode for MS3Record {
    open spec fn steim2_decodable(&self) -> bool {
        steim_decodable_payload(self.data.raw@, self.header.sample_count)
    }

    /// Decodes the Steim-2 payload into as many samples as the header announces.
    fn decode_steim2(&self, swap_flag: bool) -> (r: Result<Vec<i32>, SteimError>)
        ensures
            result_view(r) == steim_decode(SteimLevel::Steim2, self.data.raw@, self.header.sample_count as nat, swap_flag),
            r matches Ok(v) ==> v@.len() == self.header.sample_count,
    {
        steim_decode_payload(SteimLevel::Steim2, self.data_raw(), self.sample_count(), swap_flag)
    }
}

impl Steim3Decode for MS3Record {
    /// Steim-3 is not supported: decoding always fails with `Unsupported`.
    fn decode_steim3(&self, _swap_flag: bool) -> (r: Result<Vec<i32>, SteimError>)
        ensures
            r == Err::<Vec<i32>, SteimError>(SteimError::Unsupported),
    {
        Err(SteimError::Unsupported)
    }
}

/// A record being built: its header and its data.
pub struct MS3RecordBuilder {
    pub header: MS3Header,
    pub data: MS3Data,
}

impl MS3RecordBuilder {
    /// A builder with the default header and no data.
    pub fn new() -> (r: MS3RecordBuilder)
        ensures
            is_default_header(r.header),
            r.data.raw@ == Seq::<u8>::empty(),
            r.data.decoded is NoData,
    {
        MS3RecordBuilder { header: MS3Header::default(), data: MS3Data::default() }
    }

    /// The builder with `data` as the samples to encode.
    pub fn data(self, data: DecodedData) -> (r: MS3RecordBuilder)
        ensures
            r.header == self.header,
            r.data.raw == self.data.raw,
            r.data.decoded == data,
    {
        let mut b = self;
        b.data.decoded = data;
        b
    }
}

/// `i32::to_be`: `x` with its bytes reversed on a little-endian target, `x` itself on a
/// big-endian one. The contract does not say which, since it depends on the target.
#[verifier::external_body]
fn i32_to_be(x: i32) -> (r: i32)
    ensures
        r == x || r == swap32(x),
{
    x.to_be()
}

/// Whether the target stores integers most significant byte first: converting 1 to
/// big-endian order leaves it as it is only there.
fn target_is_big_endian() -> (r: bool) {
    i32_to_be(1) == 1
}

/// Each sample converted to big-endian byte order on a target of the given order.
fn to_be_all(v: &Vec<i32>, big: bool) -> (r: Vec<i32>)
    ensures
        r@ == to_be_all_on(big, v@),
{
    let mut out: Vec<i32> = Vec::with_capacity(v.len());
    let mut i: usize = 0;
    while i < v.len()
        invariant
            i <= v@.len(),
            out@ == to_be_all_on(big, v@).take(i as int),
        decreases v@.len() - i,
    {
        let x = if big { v[i] } else { swap_bytes_i32(v[i]) };
        out.push(x);
        proof {
            assert(out@ =~= to_be_all_on(big, v@).take(i + 1));
        }
        i = i + 1;
    }
    proof {
        assert(out@ =~= to_be_all_on(big, v@));
    }
    out
}

impl Steim1Encode for MS3RecordBuilder {
    open spec fn steim1_encodable(&self) -> bool {
        match self.data.decoded {
            DecodedData::I32(v) => v@.len() <= usize::MAX / 64,
            _ => true,
        }
    }

    /// Encodes the 32-bit samples as Steim-1, with `diff_0` as the difference written
    /// before the first sample. The samples go back into the builder when there are
    /// two or more; otherwise, and when they are not 32-bit integers, the builder is
    /// left without samples.
    fn encode_steim1(&mut self, diff_0: i32) -> (r: Result<Vec<u8>, SteimError>)
        ensures
            final(self).header == old(self).header,
            final(self).data.raw == old(self).data.raw,
            match old(self).data.decoded {
                DecodedData::I32(v) => {
                    &&& r matches Ok(b) && b@ == steim1_encode(v@, diff_0)
                    &&& if v@.len() >= 2 {
                        final(self).data.decoded == DecodedData::I32(v)
                    } else {
                        final(self).data.decoded is NoData
                    }
                },
                _ => {
                    &&& r == Err::<Vec<u8>, SteimError>(SteimError::NotI32Data)
                    &&& final(self).data.decoded is NoData
                },
            },
    {
        let mut unencoded = DecodedData::NoData;
        core::mem::swap(&mut unencoded, &mut self.data.decoded);
        let input = match unencoded {
            DecodedData::I32(data) => data,
            _ => {
                return Err(SteimError::NotI32Data);
            },
        };
        let n = input.len();
        let output = steim1_encode_samples(input.as_slice(), diff_0);
        if n >= 2 {
            self.data.decoded = DecodedData::I32(input);
        }
        Ok(output)
    }
}

impl Steim2Encode for MS3RecordBuilder {
    open spec fn steim2_encodable(&self) -> bool {
        match self.data.decoded {
            DecodedData::I32(v) => v@.len() <= usize::MAX / 64,
            _ => true,
        }
    }

    /// Encodes the 32-bit samples as Steim-2, with `diff_0` as the difference written
    /// before the first sample. No sample gives no byte. A single sample always
    /// succeeds: it gives one frame with the sample as both integration constants and
    /// a zero difference, `diff_0` playing no part. Two samples or more give the
    /// frames, or the error when a difference needs more than 30 bits. The frames are
    /// the same on every target. After frames of two samples or more were written
    /// the builder holds the samples converted to big-endian order, which depends on
    /// the target; otherwise it is left without samples.
    fn encode_steim2(&mut self, diff_0: i32) -> (r: Result<Vec<u8>, SteimError>)
        ensures
            final(self).header == old(self).header,
            final(self).data.raw == old(self).data.raw,
            match old(self).data.decoded {
                DecodedData::I32(v) => {
                    if v@.len() == 0 {
                        &&& r matches Ok(b) && b@ == Seq::<u8>::empty()
                        &&& final(self).data.decoded is NoData
                    } else if v@.len() == 1 {
                        &&& r is Ok
                        &&& result_view(r) == steim2_encode(v@, 0)
                        &&& final(self).data.decoded is NoData
                    } else {
                        &&& result_view(r) == steim2_encode(v@, diff_0)
                        &&& r is Ok ==> exists|big: bool|
                            (final(self).data.decoded matches DecodedData::I32(w) && w@ == #[trigger] to_be_all_on(big, v@))
                        &&& r is Err ==> final(self).data.decoded is NoData
                    }
                },
                _ => {
                    &&& r == Err::<Vec<u8>, SteimError>(SteimError::NotI32Data)
                    &&& final(self).data.decoded is NoData
                },
            },
    {
        let mut unencoded = DecodedData::NoData;
        core::mem::swap(&mut unencoded, &mut self.data.decoded);
        let input_ne = match unencoded {
            DecodedData::I32(data) => data,
            _ => {
                return Err(SteimError::NotI32Data);
            },
        };
        let n = input_ne.len();
        if n == 0 {
            return Ok(Vec::new());
        }
        let d0: i32 = if n == 1 { 0 } else { diff_0 };
        let res = steim2_encode_frames_exec(input_ne.as_slice(), d0, input_ne[0], input_ne[n - 1]);
        proof {
            assert(input_ne@.last() == input_ne@[n - 1]);
            assert(result_view(res) == steim2_encode(input_ne@, d0));
            if n == 1 {
                steim2_refuses_wide_diffs(input_ne@, 0);
                assert(diffs_of(input_ne@, 0)[0] == 0);
                assert(bitwidth_spec(0) == 4);
            }
        }
        match res {
            Err(e) => Err(e),
            Ok(output) => {
                if n >= 2 {
                    let big = target_is_big_endian();
                    let input = to_be_all(&input_ne, big);
                    self.data.decoded = DecodedData::I32(input);
                }
                Ok(output)
            },
        }
    }
}

impl Steim3Encode for MS3RecordBuilder {
    /// Steim-3 is not supported: encoding always fails with `Unsupported`.
    fn encode_steim3(&self, _diff_0: i32) -> (r: Result<Vec<u8>, SteimError>)
        ensures
            r == Err::<Vec<u8>, SteimError>(SteimError::Unsupported),
    {
        Err(SteimError::Unsupported)
    }
}

} // verus!
