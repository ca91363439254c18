//! The `WARC-Date` field: a second-precision UTC timestamp.

use chrono::{Datelike, Timelike};
use vstd::prelude::*;

use crate::strings::chars_of_ascii;

verus! {

/// A second-precision UTC timestamp, as carried by the `WARC-Date` header.
///
/// The canonical text form is `YYYY-MM-DDTHH:MM:SSZ`. Input in any other
/// RFC 3339-compatible timezone is accepted and normalized to UTC.
#[derive(PartialEq, Eq, Structural, Clone, Copy, Debug)]
pub struct WarcDate {
    year: u32,
    month: u32,
    day: u32,
    hour: u32,
    minute: u32,
    second: u32,
}

/// Whether `y` is a leap year in the proleptic Gregorian calendar.
pub open spec fn spec_is_leap(y: nat) -> bool {
    y % 4 == 0 && (y % 100 != 0 || y % 400 == 0)
}

/// The number of days in month `m` of year `y`.
pub open spec fn spec_days_in_month(y: nat, m: nat) -> nat {
    if m == 2 {
        if spec_is_leap(y) {
            29
        } else {
            28
        }
    } else if m == 4 || m == 6 || m == 9 || m == 11 {
        30
    } else {
        31
    }
}

/// The ASCII digit for `n`.
pub open spec fn spec_digit(n: nat) -> u8 {
    (48 + n % 10) as u8
}

/// `n` in two zero-padded decimal digits.
pub open spec fn spec_pad2(n: nat) -> Seq<u8> {
    seq![spec_digit(n / 10), spec_digit(n)]
}

/// `n` in four zero-padded decimal digits.
pub open spec fn spec_pad4(n: nat) -> Seq<u8> {
    seq![spec_digit(n / 1000), spec_digit(n / 100), spec_digit(n / 10), spec_digit(n)]
}

/// The canonical wire bytes of a date: `YYYY-MM-DDTHH:MM:SSZ`.
pub open spec fn spec_date_bytes(d: WarcDate) -> Seq<u8> {
    spec_pad4(d.spec_year()) + seq![45u8] + spec_pad2(d.spec_month()) + seq![45u8] + spec_pad2(
        d.spec_day(),
    ) + seq![84u8] + spec_pad2(d.spec_hour()) + seq![58u8] + spec_pad2(d.spec_minute())
        + seq![58u8] + spec_pad2(d.spec_second()) + seq![90u8]
}

/// The canonical text of a date, as chars.
pub open spec fn spec_date_chars(d: WarcDate) -> Seq<char> {
    chars_of_ascii(spec_date_bytes(d))
}

/// Whether calendar fields name a real moment that the canonical
/// four-digit year form can carry.
pub open spec fn fields_valid(y: int, mo: int, d: int, h: int, mi: int, s: int) -> bool {
    &&& 0 <= y <= 9999
    &&& 1 <= mo <= 12
    &&& 1 <= d <= spec_days_in_month(y as nat, mo as nat)
    &&& 0 <= h <= 23
    &&& 0 <= mi <= 59
    &&& 0 <= s <= 59
}

/// Whether the text is an RFC 3339 date-time naming a moment that a
/// four-digit year can carry.
pub open spec fn spec_date_text_ok(s: Seq<char>) -> bool {
    rfc3339_fields_of(s) matches Some(f) && fields_valid(f.0, f.1, f.2, f.3, f.4, f.5)
}

/// The calendar fields that chrono reads from an RFC 3339 date-time,
/// normalized to UTC: year, month, day, hour, minute and second, or `None`
/// where the text is not an RFC 3339 date-time.
pub uninterp spec fn rfc3339_fields_of(s: Seq<char>) -> Option<(int, int, int, int, int, int)>;

impl WarcDate {
    /// The year field.
    pub closed spec fn spec_year(&self) -> nat {
        self.year as nat
    }

    /// The month field.
    pub closed spec fn spec_month(&self) -> nat {
        self.month as nat
    }

    /// The day field.
    pub closed spec fn spec_day(&self) -> nat {
        self.day as nat
    }

    /// The hour field.
    pub closed spec fn spec_hour(&self) -> nat {
        self.hour as nat
    }

    /// The minute field.
    pub closed spec fn spec_minute(&self) -> nat {
        self.minute as nat
    }

    /// The second field.
    pub closed spec fn spec_second(&self) -> nat {
        self.second as nat
    }

    /// The fields as one tuple, for relating a date to parsed text.
    pub open spec fn spec_fields(&self) -> (int, int, int, int, int, int) {
        (
            self.spec_year() as int,
            self.spec_month() as int,
            self.spec_day() as int,
            self.spec_hour() as int,
            self.spec_minute() as int,
            self.spec_second() as int,
        )
    }

    /// The fields name a real calendar moment that the canonical four-digit
    /// year form can carry.
    pub open spec fn valid(&self) -> bool {
        fields_valid(
            self.spec_year() as int,
            self.spec_month() as int,
            self.spec_day() as int,
            self.spec_hour() as int,
            self.spec_minute() as int,
            self.spec_second() as int,
        )
    }

    /// Build a date from calendar fields; `None` if they do not name a
    /// real moment.
    pub fn new(year: u32, month: u32, day: u32, hour: u32, minute: u32, second: u32) -> (r: Option<
        WarcDate,
    >)
        ensures
            match r {
                Some(d) => d.valid() && d.spec_fields() == (
                    year as int,
                    month as int,
                    day as int,
                    hour as int,
                    minute as int,
                    second as int,
                ),
                None => !fields_valid(
                    year as int,
                    month as int,
                    day as int,
                    hour as int,
                    minute as int,
                    second as int,
                ),
            },
    {
        let d = WarcDate { year, month, day, hour, minute, second };
        if d.check_valid() {
            Some(d)
        } else {
            None
        }
    }

    /// Whether the fields name a real calendar moment.
    fn check_valid(&self) -> (r: bool)
        ensures
            r == self.valid(),
    {
        let dim: u32 = if self.month == 2 {
            let leap = self.year % 4 == 0 && (self.year % 100 != 0 || self.year % 400 == 0);
            if leap {
                29
            } else {
                28
            }
        } else if self.month == 4 || self.month == 6 || self.month == 9 || self.month == 11 {
            30
        } else {
            31
        };
        self.year <= 9999 && 1 <= self.month && self.month <= 12 && 1 <= self.day && self.day <= dim
            && self.hour <= 23 && self.minute <= 59 && self.second <= 59
    }

    /// The year.
    pub fn year(&self) -> (r: u32)
        ensures
            r == self.spec_year(),
    {
        self.year
    }

    /// The month, 1 to 12.
    pub fn month(&self) -> (r: u32)
        ensures
            r == self.spec_month(),
    {
        self.month
    }

    /// The day of the month, starting from 1.
    pub fn day(&self) -> (r: u32)
        ensures
            r == self.spec_day(),
    {
        self.day
    }

    /// The hour, 0 to 23.
    pub fn hour(&self) -> (r: u32)
        ensures
            r == self.spec_hour(),
    {
        self.hour
    }

    /// The minute, 0 to 59.
    pub fn minute(&self) -> (r: u32)
        ensures
            r == self.spec_minute(),
    {
        self.minute
    }

    /// The second, 0 to 59.
    pub fn second(&self) -> (r: u32)
        ensures
            r == self.spec_second(),
    {
        self.second
    }

    /// The canonical wire bytes, `YYYY-MM-DDTHH:MM:SSZ`.
    pub fn to_bytes(&self) -> (r: Vec<u8>)
        requires
            self.valid(),
        ensures
            r@ == spec_date_bytes(*self),
    {
        let mut r: Vec<u8> = Vec::new();
        push_pad4(&mut r, self.year);
        r.push(45);
        push_pad2(&mut r, self.month);
        r.push(45);
        push_pad2(&mut r, self.day);
        r.push(84);
        push_pad2(&mut r, self.hour);
        r.push(58);
        push_pad2(&mut r, self.minute);
        r.push(58);
        push_pad2(&mut r, self.second);
        r.push(90);
        proof {
            assert(r@ =~= spec_date_bytes(*self));
        }
        r
    }

    /// The canonical text form, `YYYY-MM-DDTHH:MM:SSZ`.
    pub fn to_string(&self) -> (r: String)
        requires
            self.valid(),
        ensures
            r@ == spec_date_chars(*self),
    {
        let bytes = self.to_bytes();
        proof {
            lemma_date_bytes_ascii(*self);
        }
        crate::strings::ascii_to_string(bytes.as_slice())
    }

    /// Read an RFC 3339 date-time, normalizing it to UTC.
    ///
    /// Returns `None` where the text is not an RFC 3339 date-time, or the
    /// moment cannot be carried in a four-digit year.
    pub fn parse(s: &str) -> (r: Option<WarcDate>)
        ensures
            match r {
                Some(d) => d.valid() && rfc3339_fields_of(s@) == Some(d.spec_fields()),
                None => !spec_date_text_ok(s@),
            },
            r is Some <==> spec_date_text_ok(s@),
            forall|d: WarcDate| #[trigger]
                d.valid() && s@ == spec_date_chars(d) ==> r == Some(d),
    {
        match parse_rfc3339_fields(s) {
            None => None,
            Some(f) => {
                let (y, month, day, hour, minute, second) = f;
                if y < 0 || y > 9999 {
                    return None;
                }
                let d = WarcDate { year: y as u32, month, day, hour, minute, second };
                if d.check_valid() {
                    Some(d)
                } else {
                    None
                }
            },
        }
    }

    /// The current moment in UTC.
    ///
    /// Falls back to the epoch where the clock reports a moment that a
    /// four-digit year cannot carry.
    pub fn now() -> (r: WarcDate)
        ensures
            r.valid(),
    {
        match now_fields() {
            Some(f) => {
                let (y, month, day, hour, minute, second) = f;
                if 0 <= y && y <= 9999 {
                    let d = WarcDate { year: y as u32, month, day, hour, minute, second };
                    if d.check_valid() {
                        return d;
                    }
                }
                WarcDate::epoch()
            },
            None => WarcDate::epoch(),
        }
    }

    /// Midnight at the start of 1970-01-01, UTC.
    pub fn epoch() -> (r: WarcDate)
        ensures
            r.valid(),
            r.spec_fields() == (1970int, 1int, 1int, 0int, 0int, 0int),
    {
        WarcDate { year: 1970, month: 1, day: 1, hour: 0, minute: 0, second: 0 }
    }
}

/// Append `n` as two zero-padded decimal digits.
fn push_pad2(r: &mut Vec<u8>, n: u32)
    requires
        n <= 99,
    ensures
        final(r)@ == old(r)@ + spec_pad2(n as nat),
{
    r.push(48 + (n / 10) as u8);
    r.push(48 + (n % 10) as u8);
    proof {
        assert(r@ =~= old(r)@ + spec_pad2(n as nat));
    }
}

/// Append `n` as four zero-padded decimal digits.
fn push_pad4(r: &mut Vec<u8>, n: u32)
    requires
        n <= 9999,
    ensures
        final(r)@ == old(r)@ + spec_pad4(n as nat),
{
    r.push(48 + (n / 1000) as u8);
    r.push(48 + ((n / 100) % 10) as u8);
    r.push(48 + ((n / 10) % 10) as u8);
    r.push(48 + (n % 10) as u8);
    proof {
        assert(r@ =~= old(r)@ + spec_pad4(n as nat));
    }
}

/// The canonical wire bytes of a date are ASCII.
pub proof fn lemma_date_bytes_ascii(d: WarcDate)
    ensures
        crate::strings::is_ascii_bytes(spec_date_bytes(d)),
{
    let b = spec_date_bytes(d);
    assert forall|i: int| 0 <= i < b.len() implies b[i] < 128 by {
        assert(b.len() == 20);
    }
}

/// Relies on chrono's `DateTime::parse_from_rfc3339`, `Datelike` and
/// `Timelike`: the parse accepts RFC 3339 date-times; converted to UTC,
/// `month` is 1 to 12, `day` 1 to 31, `hour` 0 to 23, `minute` and `second`
/// 0 to 59; and the canonical text `YYYY-MM-DDTHH:MM:SSZ` of any date
/// names exactly that moment.
#[verifier::external_body]
fn parse_rfc3339_fields(s: &str) -> (r: Option<(i64, u32, u32, u32, u32, u32)>)
    ensures
        match r {
            Some(f) => {
                &&& rfc3339_fields_of(s@) == Some(
                    (
                        f.0 as int,
                        f.1 as int,
                        f.2 as int,
                        f.3 as int,
                        f.4 as int,
                        f.5 as int,
                    ),
                )
                &&& 1 <= f.1 <= 12
                &&& 1 <= f.2 <= 31
                &&& f.3 <= 23
                &&& f.4 <= 59
                &&& f.5 <= 59
            },
            None => rfc3339_fields_of(s@) is None,
        },
        match r {
            Some(f) => forall|d: WarcDate| #[trigger]
                d.valid() && s@ == spec_date_chars(d) ==> f.0 == d.spec_year() && f.1
                    == d.spec_month() && f.2 == d.spec_day() && f.3 == d.spec_hour() && f.4
                    == d.spec_minute() && f.5 == d.spec_second(),
            None => forall|d: WarcDate| #[trigger] d.valid() ==> s@ != spec_date_chars(d),
        },
{
    let d: chrono::DateTime<chrono::Utc> = match chrono::DateTime::parse_from_rfc3339(s) {
        Ok(p) => p.into(),
        Err(_) => {
            return None;
        },
    };
    Some((d.year() as i64, d.month(), d.day(), d.hour(), d.minute(), d.second()))
}

/// Relies on `SystemTime::now` with chrono's `DateTime::from_timestamp`,
/// `Datelike` and `Timelike`: the seconds since the epoch name a moment
/// whose fields are in the documented calendar ranges; `None` where the
/// clock is before the epoch or out of chrono's range.
#[verifier::external_body]
fn now_fields() -> (r: Option<(i64, u32, u32, u32, u32, u32)>)
    ensures
        match r {
            Some(f) => 1 <= f.1 <= 12 && 1 <= f.2 <= 31 && f.3 <= 23 && f.4 <= 59 && f.5 <= 59,
            None => true,
        },
{
    let since = match std::time::SystemTime::now().duration_since(std::time::UNIX_EPOCH) {
        Ok(d) => d,
        Err(_) => {
            return None;
        },
    };
    let n = chrono::DateTime::<chrono::Utc>::from_timestamp(since.as_secs() as i64, 0)?;
    Some((n.year() as i64, n.month(), n.day(), n.hour(), n.minute(), n.second()))
}

} // verus!
