use mseedio::utils::{bitwidth_needed, is_big_endian, sign_extend};
use mseedio::{
    DecodedData, MS3Data, MS3Header, MS3Record, MS3RecordBuilder, Steim1Decode, Steim1Encode, Steim2Decode,
    Steim2Encode, Steim3Decode, Steim3Encode, SteimError,
};

fn steim1_five() -> Vec<u8> {
    let mut b = vec![
        0x01, 0xC0, 0x00, 0x00, // nibbles: W3 4x8, W4 1x32
        0x00, 0x00, 0x00, 0x01, // X0
        0x00, 0x00, 0x00, 0x05, // Xn
        0x00, 0x01, 0x01, 0x01, // differences 0 1 1 1
        0x00, 0x00, 0x00, 0x01, // difference 1
    ];
    b.extend_from_slice(&[0u8; 44]);
    b
}

fn steim2_five() -> Vec<u8> {
    let mut b = vec![
        0x03, 0x00, 0x00, 0x00, // nibbles: W3 is 11
        0x00, 0x00, 0x00, 0x01, // X0
        0x00, 0x00, 0x00, 0x05, // Xn
        0x00, 0x04, 0x10, 0x41, // dnib 00, 5x6: 0 1 1 1 1
    ];
    b.extend_from_slice(&[0u8; 48]);
    b
}

fn record(raw: Vec<u8>, count: u32) -> MS3Record {
    let mut header = MS3Header::default();
    header.sample_count = count;
    MS3Record::new(header, MS3Data { raw, decoded: DecodedData::NoData })
}

fn sinusoid(n: usize, amplitude: f64) -> Vec<i32> {
    (0..n).map(|i| (amplitude * ((i as f64) * 0.07).sin()) as i32).collect()
}

fn i32s(d: &DecodedData) -> Option<Vec<i32>> {
    match d {
        DecodedData::I32(v) => Some(v.clone()),
        _ => None,
    }
}

fn builder_with(samples: Vec<i32>) -> MS3RecordBuilder {
    MS3RecordBuilder::new().data(DecodedData::I32(samples))
}

#[test]
fn steim1_encode_five_samples() {
    let mut b = builder_with(vec![1, 2, 3, 4, 5]);
    let out = b.encode_steim1(0).unwrap();
    assert_eq!(out, steim1_five());
    assert_eq!(i32s(&b.data.decoded), Some(vec![1, 2, 3, 4, 5]));
}

#[test]
fn steim1_decode_five_samples() {
    let r = record(steim1_five(), 5);
    assert_eq!(r.decode_steim1(false), Ok(vec![1, 2, 3, 4, 5]));
}

#[test]
fn steim2_encode_five_samples() {
    let mut b = builder_with(vec![1, 2, 3, 4, 5]);
    let out = b.encode_steim2(0).unwrap();
    assert_eq!(out, steim2_five());
    let be: Vec<i32> = vec![1i32, 2, 3, 4, 5].iter().map(|x| x.to_be()).collect();
    assert_eq!(i32s(&b.data.decoded), Some(be));
}

#[test]
fn steim2_decode_five_samples() {
    let r = record(steim2_five(), 5);
    assert_eq!(r.decode_steim2(false), Ok(vec![1, 2, 3, 4, 5]));
}

#[test]
fn steim1_roundtrip_sinusoid() {
    let samples = sinusoid(500, 20000.0);
    let mut b = builder_with(samples.clone());
    let out = b.encode_steim1(samples[0]).unwrap();
    assert_eq!(out.len() % 64, 0);
    let r = record(out, 500);
    assert_eq!(r.decode_steim1(false), Ok(samples));
}

#[test]
fn steim2_roundtrip_sinusoid() {
    let samples = sinusoid(500, 20000.0);
    let mut b = builder_with(samples.clone());
    let out = b.encode_steim2(0).unwrap();
    assert_eq!(out.len() % 64, 0);
    let r = record(out, 500);
    assert_eq!(r.decode_steim2(false), Ok(samples));
}

#[test]
fn steim1_roundtrip_wide_differences() {
    let samples = vec![0, 1_000_000_000, -1_000_000_000, 7, -8, 300, -300, 40000, 2, 2, 2, 2, 2];
    let mut b = builder_with(samples.clone());
    let out = b.encode_steim1(0).unwrap();
    let r = record(out, samples.len() as u32);
    assert_eq!(r.decode_steim1(false), Ok(samples));
}

#[test]
fn steim2_roundtrip_mixed_widths() {
    let steps = [
        3, -3, 7, -8, 15, -16, 31, -32, 100, -128, 500, -512, 16000, -16384, 500_000_000, -500_000_000, 40000, -40000,
    ];
    let mut samples = Vec::new();
    let mut x: i32 = 0;
    for k in 0..120 {
        x += steps[k % steps.len()];
        samples.push(x);
    }
    let mut b = builder_with(samples.clone());
    let out = b.encode_steim2(0).unwrap();
    let r = record(out, samples.len() as u32);
    assert_eq!(r.decode_steim2(false), Ok(samples));
}

#[test]
fn steim1_encode_no_sample() {
    let mut b = builder_with(vec![]);
    assert_eq!(b.encode_steim1(0), Ok(vec![]));
    assert!(matches!(b.data.decoded, DecodedData::NoData));
}

#[test]
fn steim1_encode_one_sample() {
    let mut b = builder_with(vec![7]);
    let mut expected = vec![
        0x03, 0x00, 0x00, 0x00, // nibbles: W3 1x32
        0x00, 0x00, 0x00, 0x07, // X0
        0x00, 0x00, 0x00, 0x07, // Xn
        0x00, 0x00, 0x00, 0x00, // difference 0
    ];
    expected.extend_from_slice(&[0u8; 48]);
    let out = b.encode_steim1(0).unwrap();
    assert_eq!(out, expected);
    assert!(matches!(b.data.decoded, DecodedData::NoData));
    assert_eq!(record(out, 1).decode_steim1(false), Ok(vec![7]));
}

#[test]
fn steim2_encode_no_sample() {
    let mut b = builder_with(vec![]);
    assert_eq!(b.encode_steim2(0), Ok(vec![]));
    assert!(matches!(b.data.decoded, DecodedData::NoData));
}

#[test]
fn steim2_encode_one_sample() {
    let mut b = builder_with(vec![7]);
    let mut expected = vec![
        0x02, 0x00, 0x00, 0x00, // nibbles: W3 is 10
        0x00, 0x00, 0x00, 0x07, // X0
        0x00, 0x00, 0x00, 0x07, // Xn
        0x40, 0x00, 0x00, 0x00, // dnib 01, 1x30: 0
    ];
    expected.extend_from_slice(&[0u8; 48]);
    let out = b.encode_steim2(0).unwrap();
    assert_eq!(out, expected);
    assert!(matches!(b.data.decoded, DecodedData::NoData));
    assert_eq!(record(out, 1).decode_steim2(false), Ok(vec![7]));
}

#[test]
fn steim2_encode_one_sample_ignores_first_difference() {
    let mut b = builder_with(vec![7]);
    let out = b.encode_steim2(1 << 30).unwrap();
    let mut c = builder_with(vec![7]);
    assert_eq!(c.encode_steim2(0).unwrap(), out);
    assert!(matches!(b.data.decoded, DecodedData::NoData));
}

#[test]
fn steim_encode_refuses_other_data() {
    let mut b = MS3RecordBuilder::new().data(DecodedData::I16(vec![1, 2, 3]));
    assert_eq!(b.encode_steim1(0), Err(SteimError::NotI32Data));
    assert!(matches!(b.data.decoded, DecodedData::NoData));
    let mut b = MS3RecordBuilder::new().data(DecodedData::Text("abc".to_string()));
    assert_eq!(b.encode_steim2(0), Err(SteimError::NotI32Data));
    assert!(matches!(b.data.decoded, DecodedData::NoData));
}

#[test]
fn steim2_encode_refuses_wide_difference() {
    let mut b = builder_with(vec![0, 1 << 30, 0]);
    assert_eq!(b.encode_steim2(0), Err(SteimError::DiffTooWide));
    assert!(matches!(b.data.decoded, DecodedData::NoData));
    let mut b = builder_with(vec![0, 536_870_911, 0]);
    assert!(b.encode_steim2(0).is_ok());
}

#[test]
fn steim_decode_empty_payload() {
    let r = record(vec![], 3);
    assert_eq!(r.decode_steim1(false), Err(SteimError::EmptyInput));
    assert_eq!(r.decode_steim2(false), Err(SteimError::EmptyInput));
}

#[test]
fn steim_decode_short_payload() {
    let r = record(vec![0, 0, 0, 1], 1);
    assert_eq!(r.decode_steim1(false), Err(SteimError::SampleCountMismatch));
    assert_eq!(r.decode_steim2(false), Err(SteimError::SampleCountMismatch));
}

#[test]
fn steim_decode_no_sample() {
    let r = record(vec![0, 0, 0, 1], 0);
    assert_eq!(r.decode_steim1(false), Ok(vec![]));
    assert_eq!(r.decode_steim2(false), Ok(vec![]));
    let r = record(steim2_five(), 0);
    assert_eq!(r.decode_steim1(false), Ok(vec![]));
    assert_eq!(r.decode_steim2(false), Ok(vec![]));
    let r = record(vec![], 0);
    assert_eq!(r.decode_steim1(false), Err(SteimError::EmptyInput));
}

#[test]
fn steim_decode_count_mismatch() {
    let r = record(steim1_five(), 6);
    assert_eq!(r.decode_steim1(false), Err(SteimError::SampleCountMismatch));
    let r = record(steim2_five(), 6);
    assert_eq!(r.decode_steim2(false), Err(SteimError::SampleCountMismatch));
}

#[test]
fn steim_decode_fewer_samples_than_payload() {
    let r = record(steim1_five(), 3);
    assert_eq!(r.decode_steim1(false), Ok(vec![1, 2, 3]));
    let r = record(steim2_five(), 3);
    assert_eq!(r.decode_steim2(false), Err(SteimError::IntegrityCheckFailed));
}

#[test]
fn steim_decode_integrity() {
    let mut bad1 = steim1_five();
    bad1[11] = 6;
    assert_eq!(record(bad1, 5).decode_steim1(false), Ok(vec![1, 2, 3, 4, 5]));
    let mut bad2 = steim2_five();
    bad2[11] = 6;
    assert_eq!(record(bad2, 5).decode_steim2(false), Err(SteimError::IntegrityCheckFailed));
}

#[test]
fn steim2_decode_invalid_sub_codes() {
    let mut b = vec![0x02, 0, 0, 0, 0, 0, 0, 1, 0, 0, 0, 1, 0x00, 0, 0, 0x01];
    b.extend_from_slice(&[0u8; 48]);
    assert_eq!(record(b, 2).decode_steim2(false), Err(SteimError::InvalidDnibForNibble10));
    let mut b = vec![0x03, 0, 0, 0, 0, 0, 0, 1, 0, 0, 0, 1, 0xC0, 0, 0, 0x01];
    b.extend_from_slice(&[0u8; 48]);
    assert_eq!(record(b, 2).decode_steim2(false), Err(SteimError::InvalidDnibForNibble11));
}

#[test]
fn steim_decode_swapped_words() {
    let mut b = vec![
        0x00, 0x00, 0xC0, 0x01, // nibbles, bytes reversed
        0x01, 0x00, 0x00, 0x00, // X0, bytes reversed
        0x05, 0x00, 0x00, 0x00, // Xn, bytes reversed
        0x00, 0x01, 0x01, 0x01, // four bytes: not swapped
        0x01, 0x00, 0x00, 0x00, // 1x32, bytes reversed
    ];
    b.extend_from_slice(&[0u8; 44]);
    assert_eq!(record(b, 5).decode_steim1(true), Ok(vec![1, 2, 3, 4, 5]));
}

#[test]
fn steim3_is_unsupported() {
    let r = record(steim1_five(), 5);
    assert_eq!(r.decode_steim3(false), Err(SteimError::Unsupported));
    let b = builder_with(vec![1, 2]);
    assert_eq!(b.encode_steim3(0), Err(SteimError::Unsupported));
}

#[test]
fn sign_extend_values() {
    assert_eq!(sign_extend(0xFF, 8), -1);
    assert_eq!(sign_extend(0x7F, 8), 127);
    assert_eq!(sign_extend(0x80, 8), -128);
    assert_eq!(sign_extend(0x3FFF_FFFF, 30), -1);
    assert_eq!(sign_extend(0x1FFF_FFFF, 30), 0x1FFF_FFFF);
    assert_eq!(sign_extend(0x8, 4), -8);
    assert_eq!(sign_extend(-5, 32), -5);
}

#[test]
fn bitwidth_needed_values() {
    assert_eq!(bitwidth_needed(0), 4);
    assert_eq!(bitwidth_needed(-8), 4);
    assert_eq!(bitwidth_needed(8), 5);
    assert_eq!(bitwidth_needed(-32), 6);
    assert_eq!(bitwidth_needed(100), 8);
    assert_eq!(bitwidth_needed(-512), 10);
    assert_eq!(bitwidth_needed(16383), 15);
    assert_eq!(bitwidth_needed(-32768), 16);
    assert_eq!(bitwidth_needed(536_870_911), 30);
    assert_eq!(bitwidth_needed(536_870_912), 32);
    assert_eq!(bitwidth_needed(i32::MIN), 32);
}

#[test]
fn big_endian_probe() {
    assert!(!is_big_endian());
}

#[test]
fn steim2_encode_nine_samples() {
    let mut b = builder_with(vec![0, -1, -2, -3, -4, -5, -6, -7, -8]);
    let mut expected = vec![
        0x03, 0x80, 0x00, 0x00, // nibbles: W3 11, W4 10
        0x00, 0x00, 0x00, 0x00, // X0
        0xFF, 0xFF, 0xFF, 0xF8, // Xn
        0x83, 0xFF, 0xFF, 0xFF, // dnib 10, 7x4: 3 -1 -1 -1 -1 -1 -1
        0xBF, 0xFF, 0xFF, 0xFF, // dnib 10, 2x15: -1 -1
    ];
    expected.extend_from_slice(&[0u8; 44]);
    let out = b.encode_steim2(3).unwrap();
    assert_eq!(out, expected);
    assert_eq!(record(out, 9).decode_steim2(false), Ok(vec![0, -1, -2, -3, -4, -5, -6, -7, -8]));
}
