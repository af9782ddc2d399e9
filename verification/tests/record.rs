use mseedio::data::{castagoli, record_crc};
use mseedio::{
    DataEncoding, DecodedData, FieldFlag, MS3Data, MS3Header, MS3Record, MS3RecordBuilder, MS3Time, MS3Volume, RecordError,
    SampleRP, Steim1Decode, Steim1Encode,
};

fn steim1_record(samples: Vec<i32>) -> MS3Record {
    let mut b = MS3RecordBuilder::new().data(DecodedData::I32(samples.clone()));
    let raw = b.encode_steim1(0).unwrap();
    let mut h = MS3Header::default();
    h.flag = FieldFlag::ClockLocked;
    h.start_time = MS3Time::from_parts(2022, 6, 5, 20, 32, 38, 123456789);
    h.data_payload_encoding = DataEncoding::Steim1;
    h.sample_rate = SampleRP::from_raw_bits(1.0f64.to_bits());
    h.sample_count = samples.len() as u32;
    h.data_public_version = 1;
    h.sid = "FDSN:XX_TEST__L_H_Z".to_string();
    h.sid_len = 19;
    h.data_len = raw.len() as u32;
    MS3Record::new(h, MS3Data { raw, decoded: DecodedData::NoData })
}

#[test]
fn record_bytes_layout() {
    let r = steim1_record(vec![1, 2, 3, 4, 5]);
    let b = r.to_bytes();
    assert_eq!(b.len(), 40 + 19 + 64);
    assert_eq!(&b[..2], b"MS");
    assert_eq!(&b[2..40], &r.header.bytes()[..38]);
    assert_eq!(&b[40..59], b"FDSN:XX_TEST__L_H_Z");
    assert_eq!(&b[59..], &r.data.raw[..]);
}

#[test]
fn record_read_back() {
    let r = steim1_record(vec![1, 2, 3, 4, 5, -7, 1000, 70000]);
    let mut b = r.to_bytes();
    let len = b.len();
    b.extend_from_slice(b"MS and more");
    let (back, n) = MS3Record::from_bytes(&b).unwrap();
    assert_eq!(n, len);
    assert_eq!(back.header.start_time, r.header.start_time);
    assert_eq!(back.header.flag, FieldFlag::ClockLocked);
    assert_eq!(back.header.data_payload_encoding, DataEncoding::Steim1);
    assert_eq!(back.header.sid, "FDSN:XX_TEST__L_H_Z");
    assert_eq!(back.header.sample_count, 8);
    assert_eq!(back.header.data_len as usize, r.data.raw.len());
    assert!(back.header.ex_hd.is_none());
    assert_eq!(back.data.raw, r.data.raw);
    assert_eq!(back.decode_steim1(false), Ok(vec![1, 2, 3, 4, 5, -7, 1000, 70000]));
}

#[test]
fn record_with_extra_headers_read_back() {
    let mut r = steim1_record(vec![9, 8]);
    r.header.ex_hd = Some(b"{\"FDSN\":{}}".to_vec());
    r.header.ex_hd_len = 11;
    let b = r.to_bytes();
    let (back, n) = MS3Record::from_bytes(&b).unwrap();
    assert_eq!(n, b.len());
    assert_eq!(back.header.ex_hd, Some(b"{\"FDSN\":{}}".to_vec()));
    assert_eq!(back.data.raw, r.data.raw);
}

#[test]
fn record_crc_set() {
    let mut r = steim1_record(vec![1, 2, 3, 4, 5]);
    r.update_crc();
    let b = r.to_bytes();
    assert_eq!(castagoli(&b), record_crc(&b));
    assert_ne!(r.header.castagoli, 0);
    let before = r.header.castagoli;
    r.update_crc();
    assert_eq!(r.header.castagoli, before);
}

#[test]
fn record_read_errors() {
    assert_eq!(MS3Record::from_bytes(b"MS").err(), Some(RecordError::TooShort));
    let r = steim1_record(vec![1, 2, 3]);
    let mut b = r.to_bytes();
    assert_eq!(MS3Record::from_bytes(&b[..b.len() - 1]).err(), Some(RecordError::TooShort));
    b[0] = b'X';
    assert_eq!(MS3Record::from_bytes(&b).err(), Some(RecordError::NotARecord));
    b[0] = b'M';
    b[40] = 0xFF;
    assert_eq!(MS3Record::from_bytes(&b).err(), Some(RecordError::InvalidSid));
}

#[test]
fn volume_read_back() {
    let a = steim1_record(vec![1, 2, 3]);
    let b = steim1_record(vec![10, 20, 30, 40, 50, 60]);
    let mut bytes = a.to_bytes();
    bytes.extend_from_slice(&b.to_bytes());
    let v = MS3Volume::from_bytes(&bytes).unwrap();
    assert_eq!(v.records.len(), 2);
    assert_eq!(v.records[0].decode_steim1(false), Ok(vec![1, 2, 3]));
    assert_eq!(v.records[1].decode_steim1(false), Ok(vec![10, 20, 30, 40, 50, 60]));
    assert_eq!(MS3Volume::from_bytes(&[]).map(|v| v.records.len()).ok(), Some(0));
    bytes.extend_from_slice(b"MS");
    assert_eq!(MS3Volume::from_bytes(&bytes).err(), Some(RecordError::TooShort));
}
