//! Reading and writing of miniSEED 3 records: the fixed header layout, the simple
//! sample encodings and the Steim-1 / Steim-2 compression.

pub mod data;
pub mod header;
pub mod record;
pub mod record_io;
pub mod schema;
pub mod steim_decode;
pub mod steim_encode;
pub mod steim_format;
pub mod steim_laws;
pub mod steim_spec;
pub mod utils;
pub mod words;

pub use crate::data::{DecodedData, MS3Data};
pub use crate::header::{DataEncoding, FieldFlag, MS3Header, MS3Time, SampleRP};
pub use crate::record::{MS3Record, MS3RecordBuilder};
pub use crate::record_io::{MS3Volume, RecordError};
pub use crate::schema::{Clock, Flags, Recenter, RecenterSequence};
pub use crate::steim_spec::SteimError;

use vstd::prelude::*;

verus! {

/// Steim-1 decoding of a record's payload.
pub trait Steim1Decode {
    /// The payload can be read: its length is a multiple of 4.
    spec fn steim1_decodable(&self) -> bool;

    fn decode_steim1(&self, swap_flag: bool) -> Result<Vec<i32>, SteimError>
        requires
            self.steim1_decodable(),
    ;
}

/// Steim-2 decoding of a record's payload.
pub trait Steim2Decode {
    /// The payload can be read: its length is a multiple of 4.
    spec fn steim2_decodable(&self) -> bool;

    fn decode_steim2(&self, swap_flag: bool) -> Result<Vec<i32>, SteimError>
        requires
            self.steim2_decodable(),
    ;
}

/// Steim-3 decoding of a record's payload.
pub trait Steim3Decode {
    fn decode_steim3(&self, swap_flag: bool) -> Result<Vec<i32>, SteimError>;
}

/// Steim-1 encoding of a record's samples. The samples are taken out of the record
/// while they are encoded.
pub trait Steim1Encode {
    /// The samples are few enough for their frames to fit in memory.
    spec fn steim1_encodable(&self) -> bool;

    fn encode_steim1(&mut self, diff_0: i32) -> Result<Vec<u8>, SteimError>
        requires
            old(self).steim1_encodable(),
    ;
}

/// Steim-2 encoding of a record's samples. The samples are taken out of the record
/// while they are encoded.
pub trait Steim2Encode {
    /// The samples are few enough for their frames to fit in memory.
    spec fn steim2_encodable(&self) -> bool;

    fn encode_steim2(&mut self, diff_0: i32) -> Result<Vec<u8>, SteimError>
        requires
            old(self).steim2_encodable(),
    ;
}

/// Steim-3 encoding of a record's samples.
pub trait Steim3Encode {
    fn encode_steim3(&self, diff_0: i32) -> Result<Vec<u8>, SteimError>;
}

} // verus!
