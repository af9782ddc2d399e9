use mseedio::data::{decode_i16_le, decode_i32_le, decode_u32_le, decode_u64_le, record_crc, CASTAGOLI_OFFSET};
use mseedio::{DecodedData, MS3Data};

#[test]
fn decode_i16_payload() {
    assert_eq!(decode_i16_le(&[0x01, 0x00, 0xFF, 0xFF, 0x00, 0x80]), vec![1i16, -1, i16::MIN]);
    assert_eq!(decode_i16_le(&[]), Vec::<i16>::new());
}

#[test]
fn decode_i32_payload() {
    assert_eq!(
        decode_i32_le(&[0x78, 0x56, 0x34, 0x12, 0xFE, 0xFF, 0xFF, 0xFF]),
        vec![0x1234_5678, -2]
    );
}

#[test]
fn decode_f32_payload_bits() {
    let bytes: Vec<u8> = [1.5f32, -2.25f32].iter().flat_map(|x| x.to_le_bytes()).collect();
    let bits = decode_u32_le(&bytes);
    assert_eq!(bits.iter().map(|b| f32::from_bits(*b)).collect::<Vec<f32>>(), vec![1.5f32, -2.25f32]);
}

#[test]
fn decode_f64_payload_bits() {
    let bytes: Vec<u8> = [1.0f64, -0.5f64].iter().flat_map(|x| x.to_le_bytes()).collect();
    let bits = decode_u64_le(&bytes);
    assert_eq!(bits, vec![0x3FF0_0000_0000_0000u64, 0xBFE0_0000_0000_0000u64]);
}

#[test]
fn crc_of_zero_record() {
    let mut record = vec![0u8; 32];
    record[CASTAGOLI_OFFSET] = 0x12;
    record[CASTAGOLI_OFFSET + 3] = 0x34;
    assert_eq!(record_crc(&record), 0x8A91_36AA);
}

#[test]
fn crc_ignores_its_own_field() {
    let mut a: Vec<u8> = (0u8..48).collect();
    let b = a.clone();
    a[CASTAGOLI_OFFSET + 1] = 0xEE;
    assert_eq!(record_crc(&a), record_crc(&b));
    let mut c = b.clone();
    c[40] ^= 1;
    assert_ne!(record_crc(&c), record_crc(&b));
}

#[test]
fn data_raw_access() {
    let mut d = MS3Data::default();
    assert!(d.raw().is_empty());
    assert!(matches!(d.decoded, DecodedData::NoData));
    d.raw_mut().extend_from_slice(&[1, 2, 3]);
    assert_eq!(d.raw(), &[1u8, 2, 3][..]);
}
