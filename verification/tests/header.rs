use mseedio::data::{
    data_payload_encoding, data_payload_length, day_of_year, extra_headers_length, flags, fversion, hour,
    minute, nanosecond, sample_count, sample_rate, second, sid_length, year, castagoli, data_public_version,
    FIXED_HEADER_LEN,
};
use mseedio::header::is_leap_year;
use mseedio::{DataEncoding, FieldFlag, MS3Header, MS3Time, SampleRP};

#[test]
fn dataencodeing() {
    let f64 = DataEncoding::F64;
    assert_eq!(f64.bits(), 5u8);
    let steim2 = DataEncoding::Steim2;
    assert_eq!(steim2.bits(), 11u8);
    let reserved = DataEncoding::Reserved;
    assert!(reserved.is_all());
    let a = DataEncoding::from_bits_retain(102u8);
    match a {
        DataEncoding::Text => unreachable!(),
        DataEncoding::F32 => unreachable!(),
        DataEncoding::F64 => unreachable!(),
        DataEncoding::I16 => unreachable!(),
        DataEncoding::I32 => unreachable!(),
        DataEncoding::Steim1 => unreachable!(),
        DataEncoding::Steim2 => unreachable!(),
        DataEncoding::Steim3 => unreachable!(),
        DataEncoding::I24 => unreachable!(),
        DataEncoding::GMI24 => unreachable!(),
        DataEncoding::GM16G3 => unreachable!(),
        DataEncoding::GM16G4 => unreachable!(),
        DataEncoding::USNN => unreachable!(),
        DataEncoding::CDSN16 => unreachable!(),
        DataEncoding::Grae16 => unreachable!(),
        DataEncoding::IPGS16 => unreachable!(),
        DataEncoding::SRO => unreachable!(),
        DataEncoding::HGLP => unreachable!(),
        DataEncoding::DWWSSN => unreachable!(),
        DataEncoding::RSTN16 => unreachable!(),
        _ => assert!(true),
    }
}

#[test]
fn sid_len() {
    let sid = "FDSN:XX_TEST__L_H_Z";
    assert_eq!(sid.bytes().len(), 19)
}

#[test]
fn encoding_codes_and_names() {
    assert_eq!(DataEncoding::from(10u8), DataEncoding::Steim1);
    assert_eq!(DataEncoding::from(2u8), DataEncoding::I24);
    assert_eq!(DataEncoding::from(7u8), DataEncoding::Reserved);
    assert_eq!(DataEncoding::from(102u8).bits(), 255);
    assert_eq!(DataEncoding::from_bits_retain(102u8).bits(), 102);
    assert!(!DataEncoding::from_bits_retain(102u8).is_all());
    assert_eq!(DataEncoding::from_bits_retain(19u8), DataEncoding::Steim3);
    assert_eq!(DataEncoding::Steim2.to_string(), "Steim2");
    assert_eq!(DataEncoding::RSTN16.to_string(), "RSTN16");
    assert_eq!(DataEncoding::from_bits_retain(102u8).to_string(), "Reserved");
    assert_eq!(DataEncoding::Reserved.to_string(), "Reserved");
}

#[test]
fn field_flag_bits() {
    assert_eq!(FieldFlag::ClockLocked.bits(), 4);
    assert_eq!(FieldFlag::QuestionableTimeTag.bits(), 2);
    assert_eq!(FieldFlag::from_bits_retain(1), FieldFlag::CalibrationSignals);
    assert_eq!(FieldFlag::from_bits_retain(5), FieldFlag::Other(5));
    assert_eq!(FieldFlag::from_bits_retain(255), FieldFlag::Reserved);
}

#[test]
fn time_from_parts() {
    // "2022-06-05T20:32:38.123456789Z"
    let t = MS3Time::from_parts(2022, 6, 5, 20, 32, 38, 123456789);
    assert_eq!(t.year, 2022);
    assert_eq!(t.day_of_year, 156);
    assert_eq!(t.hour, 20);
    assert_eq!(t.minute, 32);
    assert_eq!(t.second, 38);
    assert_eq!(t.nanosecond, 123456789);
    // leap year: March 1st is day 61
    assert_eq!(MS3Time::from_parts(2020, 3, 1, 0, 0, 0, 0).day_of_year, 61);
    assert_eq!(MS3Time::from_parts(2000, 3, 1, 0, 0, 0, 0).day_of_year, 61);
    assert_eq!(MS3Time::from_parts(1900, 3, 1, 0, 0, 0, 0).day_of_year, 60);
    assert_eq!(MS3Time::from_parts(2021, 13, 1, 0, 0, 0, 0).day_of_year, 366);
    assert!(is_leap_year(2024));
    assert!(!is_leap_year(2100));
}

#[test]
fn time_to_string() {
    let t = MS3Time::from_parts(2022, 6, 5, 20, 32, 38, 123456789);
    assert_eq!(t.month_and_day(), (6, 5));
    assert_eq!(t.to_string(), "2022-06-05T20:32:38.123456789Z");
    let t = MS3Time::from_parts(2020, 12, 31, 1, 2, 3, 4);
    assert_eq!(t.to_string(), "2020-12-31T01:02:03.000000004Z");
    let t = MS3Time::from_utc_fields(0, 2021, 400, 0, 0, 0);
    assert_eq!(t.month_and_day(), (0, 35));
    assert_eq!(t.to_string(), "2021-00-35T00:00:00.000000000Z");
}

#[test]
fn time_from_utc_fields() {
    let t = MS3Time::from_utc_fields(123456789, 2022, 156, 20, 32, 38);
    assert_eq!(t, MS3Time::from_parts(2022, 6, 5, 20, 32, 38, 123456789));
    let t = MS3Time::from_utc_fields(7, 70000, 300, 23, 59, 60);
    assert_eq!(t.year, (70000u32 % 65536) as u16);
    assert_eq!(t.second, 60);
    // chrono's form of a positive leap second: second 59 with a nanosecond count past 10^9
    let t = MS3Time::from_utc_fields(1_500_000_000, 2016, 366, 23, 59, 59);
    assert_eq!(t.second, 60);
    assert_eq!(t.nanosecond, 500_000_000);
    assert_eq!(t.minute, 59);
}

fn sample_header() -> MS3Header {
    let mut h = MS3Header::default();
    h.flag = FieldFlag::ClockLocked;
    h.start_time = MS3Time::from_parts(2022, 6, 5, 20, 32, 38, 123456789);
    h.data_payload_encoding = DataEncoding::Steim1;
    h.sample_rate = SampleRP::from_raw_bits(1.0f64.to_bits());
    h.sample_count = 500;
    h.castagoli = 0xEFB8_5A60;
    h.data_public_version = 1;
    h.sid = "FDSN:XX_TEST__L_H_Z".to_string();
    h.sid_len = 19;
    h.data_len = 1536;
    h
}

#[test]
fn header_default() {
    let h = MS3Header::default();
    assert_eq!(h.format_version, 3);
    assert_eq!(h.flag, FieldFlag::CalibrationSignals);
    assert_eq!(h.sid, "_mseedio_defaultsid_");
    assert_eq!(h.sid_len, 20);
    assert_eq!(h.sid_len as usize, h.sid.len());
    assert!(h.ex_hd.is_none());
    let b = h.bytes();
    assert_eq!(b.len(), 38 + 20);
    assert_eq!(&b[..6], &[3, 1, 0, 0, 0, 0]);
}

#[test]
fn header_bytes_layout() {
    let h = sample_header();
    let b = h.bytes();
    assert_eq!(b.len(), 38 + 19);
    assert_eq!(
        &b[..38],
        &[
            3, 4, 0x15, 0xCD, 0x5B, 0x07, 0xE6, 0x07, 0x9C, 0x00, 20, 32, 38, 10, 0, 0, 0, 0, 0, 0, 0xF0, 0x3F,
            0xF4, 0x01, 0, 0, 0x60, 0x5A, 0xB8, 0xEF, 1, 19, 0, 0, 0, 6, 0, 0
        ]
    );
    assert_eq!(&b[38..], "FDSN:XX_TEST__L_H_Z".as_bytes());
}

#[test]
fn header_bytes_with_extra_headers() {
    let mut h = sample_header();
    h.ex_hd = Some(b"{\"FDSN\":{}}".to_vec());
    h.ex_hd_len = 11;
    let b = h.bytes();
    assert_eq!(b.len(), 38 + 19 + 11);
    assert_eq!(&b[57..], b"{\"FDSN\":{}}");
    assert_eq!(b[32], 11);
}

#[test]
fn header_fields_read_back() {
    let h = sample_header();
    let mut rec = b"MS".to_vec();
    rec.extend_from_slice(&h.bytes());
    assert!(rec.len() >= FIXED_HEADER_LEN);
    assert_eq!(fversion(&rec), 3);
    assert_eq!(flags(&rec), 4);
    assert_eq!(nanosecond(&rec), 123456789);
    assert_eq!(year(&rec), 2022);
    assert_eq!(day_of_year(&rec), 156);
    assert_eq!(hour(&rec), 20);
    assert_eq!(minute(&rec), 32);
    assert_eq!(second(&rec), 38);
    assert_eq!(data_payload_encoding(&rec), 10);
    assert_eq!(f64::from_bits(sample_rate(&rec)), 1.0);
    assert_eq!(sample_count(&rec), 500);
    assert_eq!(castagoli(&rec), 0xEFB8_5A60);
    assert_eq!(data_public_version(&rec), 1);
    assert_eq!(sid_length(&rec), 19);
    assert_eq!(extra_headers_length(&rec), 0);
    assert_eq!(data_payload_length(&rec), 1536);
}

#[test]
fn from_parts_dates_read_back() {
    let lengths = [31u16, 28, 31, 30, 31, 30, 31, 31, 30, 31, 30, 31];
    for year in [1900usize, 2000, 2023, 2024] {
        for m in 1..=12usize {
            let mut days = lengths[m - 1];
            if m == 2 && is_leap_year(year) {
                days += 1;
            }
            for d in 1..=days as usize {
                let t = MS3Time::from_parts(year, m, d, 0, 0, 0, 0);
                assert_eq!(t.month_and_day(), (m, d as u16));
            }
        }
    }
}

#[test]
fn encodings_compare_by_code() {
    assert_eq!(DataEncoding::Other(5), DataEncoding::F64);
    assert_eq!(DataEncoding::Other(5).to_string(), "F64");
    assert_ne!(DataEncoding::Other(6), DataEncoding::F64);
    assert_eq!(DataEncoding::Other(255), DataEncoding::Reserved);
    assert_eq!(DataEncoding::Other(6).to_string(), "Reserved");
}

#[test]
fn field_flags_as_bits() {
    assert_eq!(FieldFlag::Other(1), FieldFlag::CalibrationSignals);
    let both = FieldFlag::ClockLocked.union(FieldFlag::CalibrationSignals);
    assert_eq!(both.bits(), 5);
    assert!(both.contains(FieldFlag::ClockLocked));
    assert!(!both.contains(FieldFlag::QuestionableTimeTag));
    assert!(FieldFlag::Reserved.contains(both));
}
