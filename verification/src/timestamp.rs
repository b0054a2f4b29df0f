//! Calendar timestamps and their stored text form.
//!
//! An issuance record is persisted as the UTC timestamp text
//! `YYYY-MM-DDTHH:MM:SSZ` (20 ASCII bytes, second precision).  Encoding
//! and decoding are exact inverses on valid timestamps, and decoding
//! rejects every byte string that is not the encoding of a valid
//! timestamp.

use chrono::Datelike;
use chrono::Timelike;
use vstd::prelude::*;

verus! {

/// A UTC calendar timestamp with second precision.
#[derive(Clone, Copy, PartialEq, Eq, Structural, Debug)]
pub struct Timestamp {
    pub year: u16,
    pub month: u8,
    pub day: u8,
    pub hour: u8,
    pub minute: u8,
    pub second: u8,
}

/// Gregorian leap-year rule.
pub open spec fn is_leap_year(y: int) -> bool {
    y % 4 == 0 && (y % 100 != 0 || y % 400 == 0)
}

/// Number of days in the given month of the given year.
pub open spec fn days_in_month(y: int, m: int) -> int {
    if m == 2 {
        if is_leap_year(y) {
            29
        } else {
            28
        }
    } else if m == 4 || m == 6 || m == 9 || m == 11 {
        30
    } else {
        31
    }
}

impl Timestamp {
    /// A real calendar date and time that the four-digit-year text form
    /// can represent.
    pub open spec fn valid(self) -> bool {
        &&& self.year <= 9999
        &&& 1 <= self.month <= 12
        &&& 1 <= self.day <= days_in_month(self.year as int, self.month as int)
        &&& self.hour < 24
        &&& self.minute < 60
        &&& self.second < 60
    }
}

/// The byte holding the decimal digit `n`.
pub open spec fn digit(n: int) -> u8 {
    (48 + n) as u8
}

/// The stored text form of a timestamp: `YYYY-MM-DDTHH:MM:SSZ`.
pub open spec fn encode_ts(t: Timestamp) -> Seq<u8> {
    seq![
        digit(t.year as int / 1000),
        digit((t.year as int / 100) % 10),
        digit((t.year as int / 10) % 10),
        digit(t.year as int % 10),
        45u8,
        digit(t.month as int / 10),
        digit(t.month as int % 10),
        45u8,
        digit(t.day as int / 10),
        digit(t.day as int % 10),
        84u8,
        digit(t.hour as int / 10),
        digit(t.hour as int % 10),
        58u8,
        digit(t.minute as int / 10),
        digit(t.minute as int % 10),
        58u8,
        digit(t.second as int / 10),
        digit(t.second as int % 10),
        90u8,
    ]
}

/// Whether a byte is a decimal digit.
pub open spec fn is_digit(b: u8) -> bool {
    48 <= b && b <= 57
}

/// The value of a digit byte.
pub open spec fn dval(b: u8) -> int {
    b as int - 48
}

/// The number written at positions `i`, `i + 1`.
pub open spec fn two_digits(s: Seq<u8>, i: int) -> int {
    dval(s[i]) * 10 + dval(s[i + 1])
}

/// The number written at positions `i` .. `i + 3`.
pub open spec fn four_digits(s: Seq<u8>, i: int) -> int {
    dval(s[i]) * 1000 + dval(s[i + 1]) * 100 + dval(s[i + 2]) * 10 + dval(s[i + 3])
}

/// Whether a byte string has the shape `YYYY-MM-DDTHH:MM:SSZ`.
pub open spec fn well_formed(s: Seq<u8>) -> bool {
    &&& s.len() == 20
    &&& is_digit(s[0]) && is_digit(s[1]) && is_digit(s[2]) && is_digit(s[3])
    &&& s[4] == 45u8
    &&& is_digit(s[5]) && is_digit(s[6])
    &&& s[7] == 45u8
    &&& is_digit(s[8]) && is_digit(s[9])
    &&& s[10] == 84u8
    &&& is_digit(s[11]) && is_digit(s[12])
    &&& s[13] == 58u8
    &&& is_digit(s[14]) && is_digit(s[15])
    &&& s[16] == 58u8
    &&& is_digit(s[17]) && is_digit(s[18])
    &&& s[19] == 90u8
}

/// The timestamp whose fields are written in a well-formed byte string.
pub open spec fn fields_of(s: Seq<u8>) -> Timestamp {
    Timestamp {
        year: four_digits(s, 0) as u16,
        month: two_digits(s, 5) as u8,
        day: two_digits(s, 8) as u8,
        hour: two_digits(s, 11) as u8,
        minute: two_digits(s, 14) as u8,
        second: two_digits(s, 17) as u8,
    }
}

/// What decoding a stored value yields: the written timestamp when the
/// bytes have the right shape and name a valid timestamp, nothing
/// otherwise.
pub open spec fn decode_ts(s: Seq<u8>) -> Option<Timestamp> {
    if well_formed(s) && fields_of(s).valid() {
        Some(fields_of(s))
    } else {
        None
    }
}

impl Timestamp {
    /// Tests validity, executably.
    pub fn check_valid(&self) -> (r: bool)
        ensures
            r == self.valid(),
    {
        self.year <= 9999 && 1 <= self.month && self.month <= 12 && 1 <= self.day && self.day
            <= month_days(self.year, self.month) && self.hour < 24 && self.minute < 60
            && self.second < 60
    }
}

/// Executable leap-year rule.
pub fn leap_year(y: u16) -> (r: bool)
    ensures
        r == is_leap_year(y as int),
{
    y % 4 == 0 && (y % 100 != 0 || y % 400 == 0)
}

/// Executable month length.
pub fn month_days(y: u16, m: u8) -> (r: u8)
    ensures
        r as int == days_in_month(y as int, m as int),
{
    if m == 2 {
        if leap_year(y) {
            29
        } else {
            28
        }
    } else if m == 4 || m == 6 || m == 9 || m == 11 {
        30
    } else {
        31
    }
}

/// Encodes a valid timestamp as its stored text form.
pub fn encode(t: Timestamp) -> (r: Vec<u8>)
    requires
        t.valid(),
    ensures
        r@ == encode_ts(t),
{
    let mut r: Vec<u8> = Vec::new();
    r.push(48 + (t.year / 1000) as u8);
    r.push(48 + ((t.year / 100) % 10) as u8);
    r.push(48 + ((t.year / 10) % 10) as u8);
    r.push(48 + (t.year % 10) as u8);
    r.push(45);
    r.push(48 + t.month / 10);
    r.push(48 + t.month % 10);
    r.push(45);
    r.push(48 + t.day / 10);
    r.push(48 + t.day % 10);
    r.push(84);
    r.push(48 + t.hour / 10);
    r.push(48 + t.hour % 10);
    r.push(58);
    r.push(48 + t.minute / 10);
    r.push(48 + t.minute % 10);
    r.push(58);
    r.push(48 + t.second / 10);
    r.push(48 + t.second % 10);
    r.push(90);
    proof {
        assert(r@ =~= encode_ts(t));
    }
    r
}

/// Whether a byte is a decimal digit, executably.
pub fn digit_byte(b: u8) -> (r: bool)
    ensures
        r == is_digit(b),
{
    48 <= b && b <= 57
}

/// Decodes a stored text form back into a timestamp.  Returns `None`
/// exactly when the bytes are not the encoding of a valid timestamp.
pub fn decode(s: &[u8]) -> (r: Option<Timestamp>)
    ensures
        r == decode_ts(s@),
{
    if s.len() != 20 {
        return None;
    }
    if !(s[4] == 45 && s[7] == 45 && s[10] == 84 && s[13] == 58 && s[16] == 58 && s[19] == 90) {
        return None;
    }
    if !(digit_byte(s[0]) && digit_byte(s[1]) && digit_byte(s[2]) && digit_byte(s[3])) {
        return None;
    }
    if !(digit_byte(s[5]) && digit_byte(s[6]) && digit_byte(s[8]) && digit_byte(s[9])) {
        return None;
    }
    if !(digit_byte(s[11]) && digit_byte(s[12]) && digit_byte(s[14]) && digit_byte(s[15])) {
        return None;
    }
    if !(digit_byte(s[17]) && digit_byte(s[18])) {
        return None;
    }
    let year: u16 = (s[0] - 48) as u16 * 1000 + (s[1] - 48) as u16 * 100 + (s[2] - 48) as u16 * 10
        + (s[3] - 48) as u16;
    let month: u8 = (s[5] - 48) * 10 + (s[6] - 48);
    let day: u8 = (s[8] - 48) * 10 + (s[9] - 48);
    let hour: u8 = (s[11] - 48) * 10 + (s[12] - 48);
    let minute: u8 = (s[14] - 48) * 10 + (s[15] - 48);
    let second: u8 = (s[17] - 48) * 10 + (s[18] - 48);
    let t = Timestamp { year, month, day, hour, minute, second };
    proof {
        assert(well_formed(s@));
        assert(t == fields_of(s@));
    }
    if month < 1 || month > 12 {
        return None;
    }
    if day < 1 || day > month_days(year, month) {
        return None;
    }
    if hour > 23 || minute > 59 || second > 59 {
        return None;
    }
    Some(t)
}

/// Relies on `chrono::Utc::now` and its `Datelike` / `Timelike`
/// accessors: the current UTC date and time as plain fields.  chrono
/// documents `month` in `1..=12`, `day` in `1..=31`, `hour` below 24 and
/// `minute` / `second` below 60 (a leap second is carried in the
/// nanosecond part, never in the second count).
#[verifier::external_body]
fn utc_now_fields() -> (r: (i32, u8, u8, u8, u8, u8))
    ensures
        1 <= r.1 <= 12,
        1 <= r.2 <= 31,
        r.3 < 24,
        r.4 < 60,
        r.5 < 60,
{
    let now = chrono::Utc::now();
    (
        now.year(),
        now.month() as u8,
        now.day() as u8,
        now.hour() as u8,
        now.minute() as u8,
        now.second() as u8,
    )
}

/// The current UTC time as a valid timestamp.  A platform clock that
/// reports a date outside what the four-digit-year text form can carry
/// is clamped to the nearest representable timestamp.
pub fn now_utc() -> (r: Timestamp)
    ensures
        r.valid(),
{
    let (y, month, d, hour, minute, second) = utc_now_fields();
    if y < 0 {
        return Timestamp { year: 0, month: 1, day: 1, hour: 0, minute: 0, second: 0 };
    }
    if y > 9999 {
        return Timestamp { year: 9999, month: 12, day: 31, hour: 23, minute: 59, second: 59 };
    }
    let year = y as u16;
    let limit = month_days(year, month);
    let day = if d > limit {
        limit
    } else {
        d
    };
    Timestamp { year, month, day, hour, minute, second }
}

/// The encoding of a valid timestamp decodes back to that timestamp:
/// the stored representation loses nothing.
pub proof fn lemma_round_trip(t: Timestamp)
    requires
        t.valid(),
    ensures
        decode_ts(encode_ts(t)) == Some(t),
{
    let s = encode_ts(t);
    assert(well_formed(s));
    let y = t.year as int;
    assert(four_digits(s, 0) == t.year as int) by {
        vstd::arithmetic::div_mod::lemma_fundamental_div_mod(y, 10);
        vstd::arithmetic::div_mod::lemma_fundamental_div_mod(y / 10, 10);
        vstd::arithmetic::div_mod::lemma_fundamental_div_mod(y / 100, 10);
        vstd::arithmetic::div_mod::lemma_div_denominator(y, 10, 10);
        vstd::arithmetic::div_mod::lemma_div_denominator(y, 100, 10);
    }
    assert(two_digits(s, 5) == t.month as int);
    assert(two_digits(s, 8) == t.day as int);
    assert(two_digits(s, 11) == t.hour as int);
    assert(two_digits(s, 14) == t.minute as int);
    assert(two_digits(s, 17) == t.second as int);
    assert(fields_of(s) == t);
}

/// A decodable stored text is the encoding of the timestamp it names:
/// the stored form is canonical, so no two distinct texts decode to the
/// same timestamp.
pub proof fn lemma_canonical_form(s: Seq<u8>)
    requires
        decode_ts(s) is Some,
    ensures
        encode_ts(decode_ts(s)->0) == s,
{
    let t = fields_of(s);
    let y = t.year as int;
    assert(y == dval(s[0]) * 1000 + dval(s[1]) * 100 + dval(s[2]) * 10 + dval(s[3]));
    lemma_split_digits(y, dval(s[0]), dval(s[1]) * 100 + dval(s[2]) * 10 + dval(s[3]), 1000);
    lemma_split_digits(
        y,
        dval(s[0]) * 10 + dval(s[1]),
        dval(s[2]) * 10 + dval(s[3]),
        100,
    );
    lemma_split_digits(y, dval(s[0]) * 100 + dval(s[1]) * 10 + dval(s[2]), dval(s[3]), 10);
    lemma_last_digit(dval(s[0]) * 10 + dval(s[1]), dval(s[0]), dval(s[1]));
    lemma_last_digit(
        dval(s[0]) * 100 + dval(s[1]) * 10 + dval(s[2]),
        dval(s[0]) * 10 + dval(s[1]),
        dval(s[2]),
    );
    lemma_last_digit(y, dval(s[0]) * 100 + dval(s[1]) * 10 + dval(s[2]), dval(s[3]));
    lemma_two_digit_split(t.month as int, s, 5);
    lemma_two_digit_split(t.day as int, s, 8);
    lemma_two_digit_split(t.hour as int, s, 11);
    lemma_two_digit_split(t.minute as int, s, 14);
    lemma_two_digit_split(t.second as int, s, 17);
    assert(encode_ts(t) =~= s);
}

/// For `x == q * d + r` with `r` below `d`, the quotient of `x` by `d`
/// is `q`.
proof fn lemma_split_digits(x: int, q: int, r: int, d: int)
    requires
        d > 0,
        0 <= r < d,
        x == q * d + r,
    ensures
        x / d == q,
{
    vstd::arithmetic::div_mod::lemma_fundamental_div_mod_converse_div(x, d, q, r);
}

/// For `x == q * 10 + r` with `r` a digit, `x % 10 == r`.
proof fn lemma_last_digit(x: int, q: int, r: int)
    requires
        0 <= r < 10,
        x == q * 10 + r,
    ensures
        x % 10 == r,
{
    vstd::arithmetic::div_mod::lemma_fundamental_div_mod_converse_mod(x, 10, q, r);
}

/// The two digit bytes at positions `i`, `i + 1` are recovered from the
/// number they write.
proof fn lemma_two_digit_split(m: int, s: Seq<u8>, i: int)
    requires
        0 <= i && i + 1 < s.len(),
        is_digit(s[i]) && is_digit(s[i + 1]),
        m == two_digits(s, i),
    ensures
        m / 10 == dval(s[i]),
        m % 10 == dval(s[i + 1]),
{
    lemma_split_digits(m, dval(s[i]), dval(s[i + 1]), 10);
    lemma_last_digit(m, dval(s[i]), dval(s[i + 1]));
}

} // verus!
