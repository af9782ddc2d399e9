//! The fixed header of a miniSEED 3 record and its parts.
//! See <https://docs.fdsn.org/projects/miniseed3/en/latest/definition.html>.

use vstd::prelude::*;
use crate::words::{push_u16_le, push_u32_le, push_u64_le, u16_le_bytes, u32_le_bytes, u64_le_bytes};

verus! {

/// Data payload encodings in the format are identified by a code (number).
/// Each code that the format names has a variant; `Reserved` is the code 255 that
/// stands for any code the format does not know, and `Other` holds any further code
/// as it was read. Two values are equal, and show the same name, when their codes
/// are equal.
#[derive(Debug, Clone, Copy, Eq)]
pub enum DataEncoding {
    /// Text, UTF-8 allowed, use ASCII for maximum portability, no structure defined
    Text,
    /// 16-bit integer (two's complement), little endian byte order
    I16,
    /// 32-bit integer (two's complement), little endian byte order
    I32,
    /// 32-bit floating point (IEEE single precision), little endian byte order
    F32,
    /// 64-bit floating point (IEEE double precision), little endian byte order
    F64,
    /// Steim-1 integer compression, big endian byte order
    Steim1,
    /// Steim-2 integer compression, big endian byte order
    Steim2,
    /// Steim-3 integer compression, big endian (not in common use in archives)
    Steim3,
    /// A code that the format has deprecated.
    I24,
    /// A code that the format has deprecated.
    GMI24,
    /// A code that the format has deprecated.
    GM16G3,
    /// A code that the format has deprecated.
    GM16G4,
    /// A code that the format has deprecated.
    USNN,
    /// A code that the format has deprecated.
    CDSN16,
    /// A code that the format has deprecated.
    Grae16,
    /// A code that the format has deprecated.
    IPGS16,
    /// A code that the format has deprecated.
    SRO,
    /// A code that the format has deprecated.
    HGLP,
    /// A code that the format has deprecated.
    DWWSSN,
    /// A code that the format has deprecated.
    RSTN16,
    /// The code 255, given to codes that the format does not name.
    Reserved,
    /// A code that the format does not name, kept as it is.
    Other(u8),
}

/// The code of each named encoding.
pub open spec fn encoding_code(e: DataEncoding) -> u8 {
    match e {
        DataEncoding::Text => 0,
        DataEncoding::I16 => 1,
        DataEncoding::I32 => 3,
        DataEncoding::F32 => 4,
        DataEncoding::F64 => 5,
        DataEncoding::Steim1 => 10,
        DataEncoding::Steim2 => 11,
        DataEncoding::Steim3 => 19,
        DataEncoding::I24 => 2,
        DataEncoding::GMI24 => 12,
        DataEncoding::GM16G3 => 13,
        DataEncoding::GM16G4 => 14,
        DataEncoding::USNN => 15,
        DataEncoding::CDSN16 => 16,
        DataEncoding::Grae16 => 17,
        DataEncoding::IPGS16 => 18,
        DataEncoding::SRO => 30,
        DataEncoding::HGLP => 31,
        DataEncoding::DWWSSN => 32,
        DataEncoding::RSTN16 => 33,
        DataEncoding::Reserved => 255,
        DataEncoding::Other(b) => b,
    }
}

/// The encoding whose code is `b`: the named one, `Reserved` for 255, else `Other(b)`.
pub open spec fn encoding_of_code(b: u8) -> DataEncoding {
    if b == 0 {
        DataEncoding::Text
    } else if b == 1 {
        DataEncoding::I16
    } else if b == 3 {
        DataEncoding::I32
    } else if b == 4 {
        DataEncoding::F32
    } else if b == 5 {
        DataEncoding::F64
    } else if b == 10 {
        DataEncoding::Steim1
    } else if b == 11 {
        DataEncoding::Steim2
    } else if b == 19 {
        DataEncoding::Steim3
    } else if b == 2 {
        DataEncoding::I24
    } else if b == 12 {
        DataEncoding::GMI24
    } else if b == 13 {
        DataEncoding::GM16G3
    } else if b == 14 {
        DataEncoding::GM16G4
    } else if b == 15 {
        DataEncoding::USNN
    } else if b == 16 {
        DataEncoding::CDSN16
    } else if b == 17 {
        DataEncoding::Grae16
    } else if b == 18 {
        DataEncoding::IPGS16
    } else if b == 30 {
        DataEncoding::SRO
    } else if b == 31 {
        DataEncoding::HGLP
    } else if b == 32 {
        DataEncoding::DWWSSN
    } else if b == 33 {
        DataEncoding::RSTN16
    } else if b == 255 {
        DataEncoding::Reserved
    } else {
        DataEncoding::Other(b)
    }
}

/// The name under which an encoding is shown.
pub open spec fn encoding_name(e: DataEncoding) -> Seq<char> {
    match e {
        DataEncoding::Text => "Text"@,
        DataEncoding::I16 => "I16"@,
        DataEncoding::I32 => "I32"@,
        DataEncoding::F32 => "F32"@,
        DataEncoding::F64 => "F64"@,
        DataEncoding::Steim1 => "Steim1"@,
        DataEncoding::Steim2 => "Steim2"@,
        DataEncoding::Steim3 => "Steim3"@,
        DataEncoding::I24 => "I24"@,
        DataEncoding::GMI24 => "GMI24"@,
        DataEncoding::GM16G3 => "GM16G3"@,
        DataEncoding::GM16G4 => "GM16G4"@,
        DataEncoding::USNN => "USNN"@,
        DataEncoding::CDSN16 => "CDSN16"@,
        DataEncoding::Grae16 => "Grae16"@,
        DataEncoding::IPGS16 => "IPGS16"@,
        DataEncoding::SRO => "SRO"@,
        DataEncoding::HGLP => "HGLP"@,
        DataEncoding::DWWSSN => "DWWSSN"@,
        DataEncoding::RSTN16 => "RSTN16"@,
        _ => "Reserved"@,
    }
}

impl DataEncoding {
    /// A value is well formed when `Other` holds no code that has a variant.
    pub open spec fn wf(self) -> bool {
        encoding_of_code(encoding_code(self)) == self
    }

    /// The code of this encoding.
    pub fn bits(&self) -> (r: u8)
        ensures
            r == encoding_code(*self),
    {
        match self {
            DataEncoding::Text => 0,
            DataEncoding::I16 => 1,
            DataEncoding::I32 => 3,
            DataEncoding::F32 => 4,
            DataEncoding::F64 => 5,
            DataEncoding::Steim1 => 10,
            DataEncoding::Steim2 => 11,
            DataEncoding::Steim3 => 19,
            DataEncoding::I24 => 2,
            DataEncoding::GMI24 => 12,
            DataEncoding::GM16G3 => 13,
            DataEncoding::GM16G4 => 14,
            DataEncoding::USNN => 15,
            DataEncoding::CDSN16 => 16,
            DataEncoding::Grae16 => 17,
            DataEncoding::IPGS16 => 18,
            DataEncoding::SRO => 30,
            DataEncoding::HGLP => 31,
            DataEncoding::DWWSSN => 32,
            DataEncoding::RSTN16 => 33,
            DataEncoding::Reserved => 255,
            DataEncoding::Other(b) => *b,
        }
    }

    /// The encoding with code `b`, whether the format names it or not.
    pub fn from_bits_retain(b: u8) -> (r: DataEncoding)
        ensures
            r == encoding_of_code(b),
            encoding_code(r) == b,
            r.wf(),
    {
        if b == 0 {
            DataEncoding::Text
        } else if b == 1 {
            DataEncoding::I16
        } else if b == 3 {
            DataEncoding::I32
        } else if b == 4 {
            DataEncoding::F32
        } else if b == 5 {
            DataEncoding::F64
        } else if b == 10 {
            DataEncoding::Steim1
        } else if b == 11 {
            DataEncoding::Steim2
        } else if b == 19 {
            DataEncoding::Steim3
        } else if b == 2 {
            DataEncoding::I24
        } else if b == 12 {
            DataEncoding::GMI24
        } else if b == 13 {
            DataEncoding::GM16G3
        } else if b == 14 {
            DataEncoding::GM16G4
        } else if b == 15 {
            DataEncoding::USNN
        } else if b == 16 {
            DataEncoding::CDSN16
        } else if b == 17 {
            DataEncoding::Grae16
        } else if b == 18 {
            DataEncoding::IPGS16
        } else if b == 30 {
            DataEncoding::SRO
        } else if b == 31 {
            DataEncoding::HGLP
        } else if b == 32 {
            DataEncoding::DWWSSN
        } else if b == 33 {
            DataEncoding::RSTN16
        } else if b == 255 {
            DataEncoding::Reserved
        } else {
            DataEncoding::Other(b)
        }
    }

    /// Whether every bit of the code is set, as for `Reserved`.
    pub fn is_all(&self) -> (r: bool)
        ensures
            r == (encoding_code(*self) == 255),
    {
        self.bits() == 255
    }

    /// The name of the encoding with this code; codes the format does not name show
    /// as "Reserved".
    pub fn to_string(&self) -> (r: String)
        ensures
            r@ == encoding_name(encoding_of_code(encoding_code(*self))),
    {
        let e = DataEncoding::from_bits_retain(self.bits());
        let s: &str = match e {
            DataEncoding::Text => "Text",
            DataEncoding::I16 => "I16",
            DataEncoding::I32 => "I32",
            DataEncoding::F32 => "F32",
            DataEncoding::F64 => "F64",
            DataEncoding::Steim1 => "Steim1",
            DataEncoding::Steim2 => "Steim2",
            DataEncoding::Steim3 => "Steim3",
            DataEncoding::I24 => "I24",
            DataEncoding::GMI24 => "GMI24",
            DataEncoding::GM16G3 => "GM16G3",
            DataEncoding::GM16G4 => "GM16G4",
            DataEncoding::USNN => "USNN",
            DataEncoding::CDSN16 => "CDSN16",
            DataEncoding::Grae16 => "Grae16",
            DataEncoding::IPGS16 => "IPGS16",
            DataEncoding::SRO => "SRO",
            DataEncoding::HGLP => "HGLP",
            DataEncoding::DWWSSN => "DWWSSN",
            DataEncoding::RSTN16 => "RSTN16",
            _ => "Reserved",
        };
        proof {
            reveal_strlit("Text");
            reveal_strlit("I16");
            reveal_strlit("I32");
            reveal_strlit("F32");
            reveal_strlit("F64");
            reveal_strlit("Steim1");
            reveal_strlit("Steim2");
            reveal_strlit("Steim3");
            reveal_strlit("I24");
            reveal_strlit("GMI24");
            reveal_strlit("GM16G3");
            reveal_strlit("GM16G4");
            reveal_strlit("USNN");
            reveal_strlit("CDSN16");
            reveal_strlit("Grae16");
            reveal_strlit("IPGS16");
            reveal_strlit("SRO");
            reveal_strlit("HGLP");
            reveal_strlit("DWWSSN");
            reveal_strlit("RSTN16");
            reveal_strlit("Reserved");
        }
        s.to_string()
    }
}

/// The encoding that a code read from a header stands for: a named encoding, or
/// `Reserved` for any other code.
pub open spec fn encoding_from_code(b: u8) -> DataEncoding {
    match encoding_of_code(b) {
        DataEncoding::Other(_) => DataEncoding::Reserved,
        e => e,
    }
}

impl From<u8> for DataEncoding {
    fn from(value: u8) -> (r: DataEncoding) {
        match DataEncoding::from_bits_retain(value) {
            DataEncoding::Other(_) => DataEncoding::Reserved,
            e => e,
        }
    }
}

impl vstd::std_specs::convert::FromSpecImpl<u8> for DataEncoding {
    open spec fn obeys_from_spec() -> bool {
        true
    }

    open spec fn from_spec(value: u8) -> DataEncoding {
        encoding_from_code(value)
    }
}

impl PartialEq for DataEncoding {
    /// Whether the two encodings have the same code.
    fn eq(&self, other: &DataEncoding) -> (r: bool) {
        self.bits() == other.bits()
    }
}

impl vstd::std_specs::cmp::PartialEqSpecImpl for DataEncoding {
    open spec fn obeys_eq_spec() -> bool {
        true
    }

    open spec fn eq_spec(&self, other: &DataEncoding) -> bool {
        encoding_code(*self) == encoding_code(*other)
    }
}

/// The flags of a record, UINT8:
/// - bit 0: Calibration signals present. [same as SEED 2.4 FSDH, field 12, bit 0]
/// - bit 1: Time tag is questionable. [same as SEED 2.4 FSDH, field 14, bit 7]
/// - bit 2: Clock locked. [same as SEED 2.4 FSDH, field 13, bit 5]
/// - others: Reserved
///
/// Each single flag has a variant, `Reserved` stands for all bits set, and `Other`
/// holds any further combination of bits. Two values are equal when their bits are.
#[derive(Debug, Clone, Copy, Eq)]
pub enum FieldFlag {
    CalibrationSignals,
    QuestionableTimeTag,
    ClockLocked,
    Reserved,
    Other(u8),
}

/// The bits of a flag value.
pub open spec fn flag_bits(f: FieldFlag) -> u8 {
    match f {
        FieldFlag::CalibrationSignals => 1,
        FieldFlag::QuestionableTimeTag => 2,
        FieldFlag::ClockLocked => 4,
        FieldFlag::Reserved => 255,
        FieldFlag::Other(b) => b,
    }
}

/// The flag value with bits `b`.
pub open spec fn flag_of_bits(b: u8) -> FieldFlag {
    if b == 1 {
        FieldFlag::CalibrationSignals
    } else if b == 2 {
        FieldFlag::QuestionableTimeTag
    } else if b == 4 {
        FieldFlag::ClockLocked
    } else if b == 255 {
        FieldFlag::Reserved
    } else {
        FieldFlag::Other(b)
    }
}

impl FieldFlag {
    /// The bits of the flags.
    pub fn bits(&self) -> (r: u8)
        ensures
            r == flag_bits(*self),
    {
        match self {
            FieldFlag::CalibrationSignals => 1,
            FieldFlag::QuestionableTimeTag => 2,
            FieldFlag::ClockLocked => 4,
            FieldFlag::Reserved => 255,
            FieldFlag::Other(b) => *b,
        }
    }

    /// The flags with bits `b`.
    pub fn from_bits_retain(b: u8) -> (r: FieldFlag)
        ensures
            r == flag_of_bits(b),
            flag_bits(r) == b,
    {
        if b == 1 {
            FieldFlag::CalibrationSignals
        } else if b == 2 {
            FieldFlag::QuestionableTimeTag
        } else if b == 4 {
            FieldFlag::ClockLocked
        } else if b == 255 {
            FieldFlag::Reserved
        } else {
            FieldFlag::Other(b)
        }
    }

    /// Whether every flag set in `other` is set in `self`.
    pub fn contains(&self, other: FieldFlag) -> (r: bool)
        ensures
            r == (flag_bits(*self) & flag_bits(other) == flag_bits(other)),
    {
        self.bits() & other.bits() == other.bits()
    }

    /// The flags set in `self` or in `other`.
    pub fn union(&self, other: FieldFlag) -> (r: FieldFlag)
        ensures
            flag_bits(r) == flag_bits(*self) | flag_bits(other),
    {
        FieldFlag::from_bits_retain(self.bits() | other.bits())
    }
}

impl PartialEq for FieldFlag {
    /// Whether the two values have the same bits.
    fn eq(&self, other: &FieldFlag) -> (r: bool) {
        self.bits() == other.bits()
    }
}

impl vstd::std_specs::cmp::PartialEqSpecImpl for FieldFlag {
    open spec fn obeys_eq_spec() -> bool {
        true
    }

    open spec fn eq_spec(&self, other: &FieldFlag) -> bool {
        flag_bits(*self) == flag_bits(*other)
    }
}

/// Whether `y` is a leap year of the Gregorian calendar.
pub open spec fn is_leap_year_spec(y: int) -> bool {
    (y % 4 == 0 && y % 100 != 0) || y % 400 == 0
}

/// Whether `y` is a leap year of the Gregorian calendar.
pub fn is_leap_year(y: usize) -> (r: bool)
    ensures
        r == is_leap_year_spec(y as int),
{
    (y % 4 == 0 && y % 100 != 0) || y % 400 == 0
}

/// The number of days of month `i` (0 for January) in a leap year or not.
pub open spec fn month_days(leap: bool, i: int) -> u16 {
    if i == 1 {
        if leap {
            29
        } else {
            28
        }
    } else if i == 3 || i == 5 || i == 8 || i == 10 {
        30
    } else {
        31
    }
}

/// The number of days of month `i` (0 for January) in a leap year or not.
pub fn month_days_exec(leap: bool, i: usize) -> (r: u16)
    ensures
        r == month_days(leap, i as int),
{
    if i == 1 {
        if leap {
            29
        } else {
            28
        }
    } else if i == 3 || i == 5 || i == 8 || i == 10 {
        30
    } else {
        31
    }
}

/// The number of days of the first `k` months of a year.
pub open spec fn days_before_month(leap: bool, k: int) -> int
    decreases k,
{
    if k <= 0 {
        0
    } else {
        days_before_month(leap, k - 1) + month_days(leap, k - 1)
    }
}

proof fn lemma_days_before_month_bound(leap: bool, k: int)
    requires
        0 <= k <= 12,
    ensures
        0 <= days_before_month(leap, k) <= 31 * k,
    decreases k,
{
    if k > 0 {
        lemma_days_before_month_bound(leap, k - 1);
    }
}

/// The month (1 for January) and the day of the month of day `doy` of a year, found
/// by taking away the length of each month from January on while the day lies
/// beyond it; the month stays 0 when the day lies beyond December.
pub open spec fn month_and_day(leap: bool, doy: int, i: int) -> (int, int)
    decreases 12 - i,
{
    if i >= 12 {
        (0, doy)
    } else if doy <= month_days(leap, i) {
        (i + 1, doy)
    } else {
        month_and_day(leap, doy - month_days(leap, i), i + 1)
    }
}

proof fn lemma_days_before_month_mono(leap: bool, j: int, k: int)
    requires
        0 <= j <= k,
    ensures
        days_before_month(leap, j) <= days_before_month(leap, k),
    decreases k - j,
{
    if j < k {
        lemma_days_before_month_mono(leap, j, k - 1);
    }
}

proof fn lemma_month_and_day_from(leap: bool, k: int, d: int, i: int)
    requires
        0 <= i <= k <= 11,
        1 <= d <= month_days(leap, k),
    ensures
        month_and_day(leap, days_before_month(leap, k) - days_before_month(leap, i) + d, i) == (k + 1, d),
    decreases k - i,
{
    if i < k {
        lemma_days_before_month_mono(leap, i + 1, k);
        lemma_month_and_day_from(leap, k, d, i + 1);
    }
}

/// The months of the Gregorian calendar: February has 29 days in a leap year and 28
/// otherwise; of the other months, January to July alternate 31 and 30 days starting
/// with 31, and August to December alternate 31 and 30 days starting again with 31.
/// A leap year has 366 days and any other year 365.
pub proof fn gregorian_month_lengths(leap: bool)
    ensures
        month_days(leap, 1) == if leap {
            29u16
        } else {
            28u16
        },
        forall|i: int|
            0 <= i < 12 && i != 1 ==> #[trigger] month_days(leap, i) == if (i < 7) == (i % 2 == 0) {
                31u16
            } else {
                30u16
            },
        days_before_month(leap, 12) == if leap {
            366int
        } else {
            365int
        },
{
    reveal_with_fuel(days_before_month, 13);
    if leap {
        assert(days_before_month(true, 12) == 366);
    } else {
        assert(days_before_month(false, 12) == 365);
    }
}

/// A time made by [`MS3Time::from_parts`] from a date of the calendar shows that
/// date again: the day of the year that it counts for month `m` and day `d` of year
/// `y` is read back by [`MS3Time::to_string`] as month `m` and day `d`.
pub proof fn from_parts_date_read_back(y: usize, m: usize, d: usize)
    requires
        y <= u16::MAX,
        1 <= m <= 12,
        1 <= d <= month_days(is_leap_year_spec(y as int), m - 1),
    ensures
        month_and_day(
            is_leap_year_spec((y as u16) as int),
            days_before_month(is_leap_year_spec(y as int), m - 1) + (d as u16),
            0,
        ) == (m as int, d as int),
{
    lemma_month_and_day_from(is_leap_year_spec(y as int), m - 1, d as int, 0);
}

/// The decimal digits of `v`, most significant first.
pub open spec fn decimal(v: nat) -> Seq<char>
    decreases v,
{
    if v < 10 {
        seq![((v + 48) as u8) as char]
    } else {
        decimal(v / 10).push((((v % 10) + 48) as u8) as char)
    }
}

/// The decimal digits of `v`, with zeros in front up to `width` characters.
pub open spec fn zero_padded(v: nat, width: nat) -> Seq<char> {
    let d = decimal(v);
    if d.len() >= width {
        d
    } else {
        Seq::new((width - d.len()) as nat, |_i: int| '0') + d
    }
}

/// `YYYY-MM-DDTHH:MM:SS.NNNNNNNNNZ` with each field zero-padded to its width.
pub open spec fn iso_time_text(year: nat, month: nat, day: nat, hour: nat, minute: nat, second: nat, ns: nat) -> Seq<char> {
    zero_padded(year, 4) + seq!['-'] + zero_padded(month, 2) + seq!['-'] + zero_padded(day, 2) + seq!['T']
        + zero_padded(hour, 2) + seq![':'] + zero_padded(minute, 2) + seq![':'] + zero_padded(second, 2) + seq!['.']
        + zero_padded(ns, 9) + seq!['Z']
}

/// Formats the fields with `format!("{:04}-{:02}-{:02}T{:02}:{:02}:{:02}.{:09}Z", ..)`.
/// The contract states what std's formatting of unsigned integers writes: the
/// decimal digits, with zeros in front up to the width.
#[verifier::external_body]
fn format_iso_time(year: u16, month: usize, day: u16, hour: u8, minute: u8, second: u8, ns: u32) -> (r: String)
    ensures
        r@ == iso_time_text(year as nat, month as nat, day as nat, hour as nat, minute as nat, second as nat, ns as nat),
{
    format!("{:04}-{:02}-{:02}T{:02}:{:02}:{:02}.{:09}Z", year, month, day, hour, minute, second, ns)
}

/// A point in time as a record header holds it: UTC, given by year, day of the year,
/// hour, minute, second and nanosecond. A 60 second value stands for a time during a
/// positive leap second.
#[derive(Debug, Clone, Copy, PartialEq, Eq, Structural)]
pub struct MS3Time {
    pub nanosecond: u32,
    pub year: u16,
    pub day_of_year: u16,
    pub hour: u8,
    pub minute: u8,
    pub second: u8,
}

impl Default for MS3Time {
    fn default() -> (r: MS3Time)
        ensures
            r == (MS3Time { nanosecond: 0, year: 0, day_of_year: 0, hour: 0, minute: 0, second: 0 }),
    {
        MS3Time { nanosecond: 0, year: 0, day_of_year: 0, hour: 0, minute: 0, second: 0 }
    }
}

impl MS3Time {
    /// The time at year `y`, month `m` (1 for January), day `d` of the month, hour
    /// `h`, minute `min`, second `s` and nanosecond `ns`. Each field is cut to the
    /// width of its header field; the day of the year counts the days of the months
    /// before `m`. `m` may be 13, which counts all twelve months.
    pub fn from_parts(y: usize, m: usize, d: usize, h: usize, min: usize, s: usize, ns: usize) -> (r: MS3Time)
        requires
            1 <= m <= 13,
            days_before_month(is_leap_year_spec(y as int), m - 1) + (d as u16) <= u16::MAX,
        ensures
            r.nanosecond == ns as u32,
            r.year == y as u16,
            r.day_of_year == days_before_month(is_leap_year_spec(y as int), m - 1) + (d as u16),
            r.hour == h as u8,
            r.minute == min as u8,
            r.second == s as u8,
    {
        let leap = is_leap_year(y);
        let mut sum: u16 = 0;
        let mut i: usize = 0;
        while i < m - 1
            invariant
                1 <= m <= 13,
                i <= m - 1,
                sum == days_before_month(leap, i as int),
            decreases m - 1 - i,
        {
            proof {
                lemma_days_before_month_bound(leap, i + 1);
            }
            sum = sum + month_days_exec(leap, i);
            i = i + 1;
        }
        let doy: u16 = sum + d as u16;
        MS3Time {
            nanosecond: ns as u32,
            year: y as u16,
            day_of_year: doy,
            hour: h as u8,
            minute: min as u8,
            second: s as u8,
        }
    }

    /// The time from the calendar fields of a UTC date and time: the nanosecond of
    /// the second, the year, the day of the year (1 for January 1st), hour, minute
    /// and second. A nanosecond count of a whole second or more marks a positive
    /// leap second: it is written as the following second, 60 after 59, with the
    /// nanoseconds beyond that second. Each field is cut to the width of its header
    /// field.
    pub fn from_utc_fields(nanosecond: u32, year: i32, ordinal: u32, hour: u32, minute: u32, second: u32) -> (r: MS3Time)
        ensures
            nanosecond < 1_000_000_000 ==> r.nanosecond == nanosecond && r.second == second as u8,
            nanosecond >= 1_000_000_000 ==> r.nanosecond == nanosecond - 1_000_000_000 && r.second == (second
                + 1) as u8,
            r.year == year as u16,
            r.day_of_year == ordinal as u16,
            r.hour == hour as u8,
            r.minute == minute as u8,
    {
        let mut ns: u32 = nanosecond;
        let mut sec: u8 = second as u8;
        if nanosecond >= 1_000_000_000 {
            let s8: u8 = second as u8;
            proof {
                assert(s8.wrapping_add(1) == (second + 1) as u8) by (bit_vector)
                    requires s8 == second as u8;
            }
            ns = nanosecond - 1_000_000_000;
            sec = s8.wrapping_add(1);
        }
        MS3Time {
            nanosecond: ns,
            year: year as u16,
            day_of_year: ordinal as u16,
            hour: hour as u8,
            minute: minute as u8,
            second: sec,
        }
    }

    /// The month (1 for January; 0 when the day lies beyond December) and the day of
    /// the month.
    pub fn month_and_day(&self) -> (r: (usize, u16))
        ensures
            r.0 as int == month_and_day(is_leap_year_spec(self.year as int), self.day_of_year as int, 0).0,
            r.1 as int == month_and_day(is_leap_year_spec(self.year as int), self.day_of_year as int, 0).1,
    {
        let leap = is_leap_year(self.year as usize);
        let mut day_of_year = self.day_of_year;
        let mut month: usize = 0;
        let mut i: usize = 0;
        while i < 12
            invariant
                i <= 12,
                month == 0,
                leap == is_leap_year_spec(self.year as int),
                month_and_day(leap, day_of_year as int, i as int) == month_and_day(leap, self.day_of_year as int, 0),
            decreases 12 - i,
        {
            let days = month_days_exec(leap, i);
            if day_of_year <= days {
                return (i + 1, day_of_year);
            }
            day_of_year = day_of_year - days;
            i = i + 1;
        }
        (month, day_of_year)
    }

    /// The time as `YYYY-MM-DDTHH:MM:SS.NNNNNNNNNZ`.
    pub fn to_string(&self) -> (r: String)
        ensures
            ({
                let (month, day) = month_and_day(is_leap_year_spec(self.year as int), self.day_of_year as int, 0);
                r@ == iso_time_text(
                    self.year as nat,
                    month as nat,
                    day as nat,
                    self.hour as nat,
                    self.minute as nat,
                    self.second as nat,
                    self.nanosecond as nat,
                )
            }),
    {
        let (month, day) = self.month_and_day();
        format_iso_time(self.year, month, day, self.hour, self.minute, self.second, self.nanosecond)
    }
}

/// Sample rate and period: a 64-bit IEEE-754 floating point number, held here as its
/// bits. A positive value is the rate in samples per second, a negative value the
/// sample period in seconds; 0.0 when the record holds no time series.
#[derive(Debug, Clone, Copy, PartialEq, Eq, Structural)]
pub struct SampleRP {
    pub raw: u64,
}

impl Default for SampleRP {
    fn default() -> (r: SampleRP)
        ensures
            r.raw == 0,
    {
        SampleRP { raw: 0 }
    }
}

impl SampleRP {
    /// The value with the given IEEE-754 bits.
    pub fn from_raw_bits(bits: u64) -> (r: SampleRP)
        ensures
            r.raw == bits,
    {
        SampleRP { raw: bits }
    }

    /// The IEEE-754 bits of the value.
    pub fn raw_bits(&self) -> (r: u64)
        ensures
            r == self.raw,
    {
        self.raw
    }
}

/// The header of a miniSEED 3.0 record. A record is made of a header followed by a
/// data payload. The binary fields of the header are little endian.
pub struct MS3Header {
    /// Format version: 3 for this version.
    pub format_version: u8,
    /// Bit field flags, see [`FieldFlag`].
    pub flag: FieldFlag,
    /// Record start time, time of the first data sample.
    pub start_time: MS3Time,
    /// The encoding of the data payload; `Text` when no data payload is included.
    pub data_payload_encoding: DataEncoding,
    /// Sample rate or period, see [`SampleRP`].
    pub sample_rate: SampleRP,
    /// Total number of data samples in the data payload; 0 when there are none or
    /// when the number is unknown.
    pub sample_count: u32,
    /// CRC-32C (Castagnoli) value of the complete record with the 4-byte CRC field
    /// set to zeros.
    pub castagoli: u32,
    /// Publication version of the data: 0 for unknown, 1 for raw data, 2 and more
    /// for later revisions.
    pub data_public_version: u8,
    /// Length, in bytes, of the source identifier.
    pub sid_len: u8,
    /// Length, in bytes, of the extra headers; 0 when there are none.
    pub ex_hd_len: u16,
    /// Length, in bytes, of the data payload; 0 when there is none.
    pub data_len: u32,
    /// A unique identifier of the source of the data, commonly an FDSN Source Identifier.
    pub sid: String,
    /// The extra headers, as the JSON text that is written into the record.
    pub ex_hd: Option<Vec<u8>>,
}

/// The 26 bytes of the fixed fields of a header that come before the CRC, from the
/// format version to the number of samples, little endian.
pub open spec fn fixed_header_head(h: MS3Header) -> Seq<u8> {
    seq![h.format_version, flag_bits(h.flag)] + u32_le_bytes(h.start_time.nanosecond) + u16_le_bytes(h.start_time.year)
        + u16_le_bytes(h.start_time.day_of_year) + seq![
        h.start_time.hour,
        h.start_time.minute,
        h.start_time.second,
        encoding_code(h.data_payload_encoding),
    ] + u64_le_bytes(h.sample_rate.raw) + u32_le_bytes(h.sample_count)
}

/// The 8 bytes of the fixed fields of a header that come after the CRC, from the
/// publication version to the length of the data payload, little endian.
pub open spec fn fixed_header_tail(h: MS3Header) -> Seq<u8> {
    seq![h.data_public_version, h.sid_len] + u16_le_bytes(h.ex_hd_len) + u32_le_bytes(h.data_len)
}

/// The 38 bytes of the fixed fields of a header, from the format version to the
/// length of the data payload, little endian.
pub open spec fn fixed_header_bytes(h: MS3Header) -> Seq<u8> {
    fixed_header_head(h) + u32_le_bytes(h.castagoli) + fixed_header_tail(h)
}

/// The bytes of a header: the fixed fields, then the UTF-8 bytes of the source
/// identifier, then the extra headers when there are any.
pub open spec fn header_bytes(h: MS3Header) -> Seq<u8> {
    fixed_header_bytes(h) + vstd::utf8::encode_utf8(h.sid@) + match h.ex_hd {
        Some(e) => e@,
        None => seq![],
    }
}

/// The fields of the header that [`MS3Header::default`] makes.
pub open spec fn is_default_header(r: MS3Header) -> bool {
    &&& r.format_version == 3
    &&& r.flag == FieldFlag::CalibrationSignals
    &&& r.start_time == (MS3Time { nanosecond: 0, year: 0, day_of_year: 0, hour: 0, minute: 0, second: 0 })
    &&& r.data_payload_encoding == DataEncoding::Text
    &&& r.sample_rate.raw == 0
    &&& r.sample_count == 0
    &&& r.castagoli == 0
    &&& r.data_public_version == 0
    &&& r.sid_len == 20
    &&& r.ex_hd_len == 0
    &&& r.data_len == 0
    &&& r.sid@ == "_mseedio_defaultsid_"@
    &&& r.ex_hd is None
}

impl MS3Header {
    /// A header with format version 3, the calibration flag, the default time, text
    /// encoding, rate 0, no samples, no CRC, publication version 0, a placeholder
    /// source identifier of 20 bytes with 20 as its stated length, and no extra
    /// headers.
    pub fn default() -> (r: MS3Header)
        ensures
            is_default_header(r),
    {
        MS3Header {
            format_version: 3,
            flag: FieldFlag::CalibrationSignals,
            start_time: MS3Time::default(),
            data_payload_encoding: DataEncoding::Text,
            sample_rate: SampleRP::default(),
            sample_count: 0,
            castagoli: 0,
            data_public_version: 0,
            sid_len: 20,
            ex_hd_len: 0,
            data_len: 0,
            sid: "_mseedio_defaultsid_".to_string(),
            ex_hd: None,
        }
    }

    /// The bytes of the header: the fixed fields, little endian, the source
    /// identifier and the extra headers.
    pub fn bytes(&self) -> (r: Vec<u8>)
        ensures
            r@ == header_bytes(*self),
    {
        let mut bytes: Vec<u8> = Vec::new();
        bytes.push(self.format_version);
        bytes.push(self.flag.bits());
        push_u32_le(&mut bytes, self.start_time.nanosecond);
        push_u16_le(&mut bytes, self.start_time.year);
        push_u16_le(&mut bytes, self.start_time.day_of_year);
        bytes.push(self.start_time.hour);
        bytes.push(self.start_time.minute);
        bytes.push(self.start_time.second);
        bytes.push(self.data_payload_encoding.bits());
        push_u64_le(&mut bytes, self.sample_rate.raw);
        push_u32_le(&mut bytes, self.sample_count);
        push_u32_le(&mut bytes, self.castagoli);
        bytes.push(self.data_public_version);
        bytes.push(self.sid_len);
        push_u16_le(&mut bytes, self.ex_hd_len);
        push_u32_le(&mut bytes, self.data_len);
        proof {
            assert(bytes@ =~= fixed_header_bytes(*self));
        }
        bytes.extend_from_slice(self.sid.as_str().as_bytes());
        match &self.ex_hd {
            Some(e) => {
                bytes.extend_from_slice(e.as_slice());
            },
            None => {
                proof {
                    assert(bytes@ + seq![] =~= bytes@);
                }
            },
        }
        proof {
            assert(bytes@ =~= header_bytes(*self));
        }
        bytes
    }
}

} // verus!
