//! Calendar dates, without a time component.
//!
//! The library holds dates as plain year/month/day values with a validity
//! rule of their own; only "the date today" comes from outside.

use crate::numerals::{
    digit_char, digit_to_char, digit_val, is_digit, lemma_digit_char_of_val, lemma_digit_val_of_char,
};
use vstd::prelude::*;

verus! {

/// A calendar date with a four-digit year.
#[derive(Debug, Clone, Copy, PartialEq, Eq, Structural)]
pub struct Date {
    pub year: u16,
    pub month: u8,
    pub day: u8,
}

/// `y` is a leap year of the proleptic Gregorian calendar.
pub open spec fn spec_is_leap_year(y: nat) -> bool {
    y % 4 == 0 && (y % 100 != 0 || y % 400 == 0)
}

/// The number of days in month `m` of year `y`.
pub open spec fn spec_days_in_month(y: nat, m: nat) -> nat {
    if m == 2 {
        if spec_is_leap_year(y) {
            29
        } else {
            28
        }
    } else if m == 4 || m == 6 || m == 9 || m == 11 {
        30
    } else {
        31
    }
}

/// `y` is a leap year.
pub fn is_leap_year(y: u16) -> (r: bool)
    ensures
        r == spec_is_leap_year(y as nat),
{
    y % 4 == 0 && (y % 100 != 0 || y % 400 == 0)
}

/// The number of days in month `m` of year `y`.
pub fn days_in_month(y: u16, m: u8) -> (r: u8)
    ensures
        r == spec_days_in_month(y as nat, m as nat),
{
    if m == 2 {
        if is_leap_year(y) {
            29
        } else {
            28
        }
    } else if m == 4 || m == 6 || m == 9 || m == 11 {
        30
    } else {
        31
    }
}

/// Two zero-padded decimal digits of `n`.
pub open spec fn two_digit_chars(n: nat) -> Seq<char> {
    seq![digit_char((n / 10) % 10), digit_char(n % 10)]
}

/// Four zero-padded decimal digits of `n`.
pub open spec fn four_digit_chars(n: nat) -> Seq<char> {
    seq![
        digit_char((n / 1000) % 10),
        digit_char((n / 100) % 10),
        digit_char((n / 10) % 10),
        digit_char(n % 10),
    ]
}

/// The text of a date: `YYYY-MM-DD`.
pub open spec fn date_chars(d: Date) -> Seq<char> {
    four_digit_chars(d.year as nat) + seq!['-'] + two_digit_chars(d.month as nat) + seq!['-']
        + two_digit_chars(d.day as nat)
}

/// A number below ten thousand reassembles from its four digits.
proof fn lemma_four_digits(n: int)
    requires
        0 <= n <= 9999,
    ensures
        ((n / 1000) % 10) * 1000 + ((n / 100) % 10) * 100 + ((n / 10) % 10) * 10 + n % 10 == n,
        (n / 1000) % 10 < 10 && (n / 100) % 10 < 10 && (n / 10) % 10 < 10 && n % 10 < 10,
{
    assert(((n / 1000) % 10) * 1000 + ((n / 100) % 10) * 100 + ((n / 10) % 10) * 10 + n % 10 == n
        && (n / 1000) % 10 < 10 && (n / 100) % 10 < 10 && (n / 10) % 10 < 10 && n % 10
        < 10) by (nonlinear_arith)
        requires
            0 <= n <= 9999,
    ;
}

/// A number below one hundred reassembles from its two digits.
proof fn lemma_two_digits(n: int)
    requires
        0 <= n <= 99,
    ensures
        ((n / 10) % 10) * 10 + n % 10 == n,
        (n / 10) % 10 < 10 && n % 10 < 10,
{
    assert(((n / 10) % 10) * 10 + n % 10 == n && (n / 10) % 10 < 10 && n % 10
        < 10) by (nonlinear_arith)
        requires
            0 <= n <= 99,
    ;
}

/// The digits of a four-digit sum are the summands.
proof fn lemma_four_digit_sum(a: int, b: int, c: int, e: int)
    requires
        0 <= a < 10 && 0 <= b < 10 && 0 <= c < 10 && 0 <= e < 10,
    ensures
        (a * 1000 + b * 100 + c * 10 + e) / 1000 % 10 == a,
        (a * 1000 + b * 100 + c * 10 + e) / 100 % 10 == b,
        (a * 1000 + b * 100 + c * 10 + e) / 10 % 10 == c,
        (a * 1000 + b * 100 + c * 10 + e) % 10 == e,
{
    let n = a * 1000 + b * 100 + c * 10 + e;
    assert(n / 1000 % 10 == a && n / 100 % 10 == b && n / 10 % 10 == c && n % 10
        == e) by (nonlinear_arith)
        requires
            0 <= a < 10 && 0 <= b < 10 && 0 <= c < 10 && 0 <= e < 10 && n == a * 1000 + b * 100 + c
                * 10 + e,
    ;
}

/// The digits of a two-digit sum are the summands.
proof fn lemma_two_digit_sum(c: int, e: int)
    requires
        0 <= c < 10 && 0 <= e < 10,
    ensures
        (c * 10 + e) / 10 % 10 == c,
        (c * 10 + e) % 10 == e,
{
    let n = c * 10 + e;
    assert(n / 10 % 10 == c && n % 10 == e) by (nonlinear_arith)
        requires
            0 <= c < 10 && 0 <= e < 10 && n == c * 10 + e,
    ;
}

/// How the text of a valid date determines the date: each field reassembles
/// from the digit values at its positions.
proof fn lemma_date_chars_inverts(d: Date)
    requires
        d.wf(),
    ensures
        date_chars(d).len() == 10,
        is_digit(date_chars(d)[0]) && is_digit(date_chars(d)[1]) && is_digit(date_chars(d)[2])
            && is_digit(date_chars(d)[3]) && is_digit(date_chars(d)[5]) && is_digit(
            date_chars(d)[6],
        ) && is_digit(date_chars(d)[8]) && is_digit(date_chars(d)[9]),
        date_chars(d)[4] == '-' && date_chars(d)[7] == '-',
        d.year as int == digit_val(date_chars(d)[0]) * 1000 + digit_val(date_chars(d)[1]) * 100
            + digit_val(date_chars(d)[2]) * 10 + digit_val(date_chars(d)[3]),
        d.month as int == digit_val(date_chars(d)[5]) * 10 + digit_val(date_chars(d)[6]),
        d.day as int == digit_val(date_chars(d)[8]) * 10 + digit_val(date_chars(d)[9]),
{
    let s = date_chars(d);
    lemma_four_digits(d.year as int);
    lemma_two_digits(d.month as int);
    lemma_two_digits(d.day as int);
    assert(s[0] == digit_char((d.year as nat / 1000) % 10));
    assert(s[1] == digit_char((d.year as nat / 100) % 10));
    assert(s[2] == digit_char((d.year as nat / 10) % 10));
    assert(s[3] == digit_char(d.year as nat % 10));
    assert(s[5] == digit_char((d.month as nat / 10) % 10));
    assert(s[6] == digit_char(d.month as nat % 10));
    assert(s[8] == digit_char((d.day as nat / 10) % 10));
    assert(s[9] == digit_char(d.day as nat % 10));
    lemma_digit_val_of_char((d.year as nat / 1000) % 10);
    lemma_digit_val_of_char((d.year as nat / 100) % 10);
    lemma_digit_val_of_char((d.year as nat / 10) % 10);
    lemma_digit_val_of_char(d.year as nat % 10);
    lemma_digit_val_of_char((d.month as nat / 10) % 10);
    lemma_digit_val_of_char(d.month as nat % 10);
    lemma_digit_val_of_char((d.day as nat / 10) % 10);
    lemma_digit_val_of_char(d.day as nat % 10);
}

impl Date {
    /// A valid calendar date: the month exists and the day is in the month.
    pub open spec fn wf(self) -> bool {
        self.year <= 9999 && 1 <= self.month <= 12 && 1 <= self.day && self.day
            as nat <= spec_days_in_month(self.year as nat, self.month as nat)
    }

    /// Builds a date after checking that it is a valid calendar date.
    pub fn from_ymd(year: u16, month: u8, day: u8) -> (r: Option<Date>)
        ensures
            r matches Some(d) ==> d == (Date { year, month, day }) && d.wf(),
            r is Some <==> (Date { year, month, day }).wf(),
    {
        if year <= 9999 && 1 <= month && month <= 12 && 1 <= day && day <= days_in_month(
            year,
            month,
        ) {
            Some(Date { year, month, day })
        } else {
            None
        }
    }

    /// Formats the date as `YYYY-MM-DD`.
    pub fn format(&self) -> (s: String)
        ensures
            s@ == date_chars(*self),
    {
        let mut out: Vec<char> = Vec::new();
        out.push(digit_to_char(((self.year / 1000) % 10) as u64));
        out.push(digit_to_char(((self.year / 100) % 10) as u64));
        out.push(digit_to_char(((self.year / 10) % 10) as u64));
        out.push(digit_to_char((self.year % 10) as u64));
        out.push('-');
        out.push(digit_to_char(((self.month / 10) % 10) as u64));
        out.push(digit_to_char((self.month % 10) as u64));
        out.push('-');
        out.push(digit_to_char(((self.day / 10) % 10) as u64));
        out.push(digit_to_char((self.day % 10) as u64));
        proof {
            assert(out@ =~= date_chars(*self));
        }
        crate::numerals::chars_to_string(&out)
    }

    /// Parses `YYYY-MM-DD` text into a valid calendar date.
    ///
    /// Returns `Some(d)` exactly when the text is `date_chars(d)` for a
    /// valid date `d`.
    #[verifier::rlimit(100)]
    pub fn parse(s: &str) -> (r: Option<Date>)
        ensures
            r matches Some(d) ==> s@ == date_chars(d) && d.wf(),
            forall|d: Date| d.wf() && s@ == date_chars(d) ==> r == Some(d),
    {
        let len = s.unicode_len();
        if len != 10 {
            return None;
        }
        let y0 = s.get_char(0) as u32;
        let y1 = s.get_char(1) as u32;
        let y2 = s.get_char(2) as u32;
        let y3 = s.get_char(3) as u32;
        let dash1 = s.get_char(4);
        let m0 = s.get_char(5) as u32;
        let m1 = s.get_char(6) as u32;
        let dash2 = s.get_char(7);
        let d0 = s.get_char(8) as u32;
        let d1 = s.get_char(9) as u32;
        let all_digits = 48 <= y0 && y0 <= 57 && 48 <= y1 && y1 <= 57 && 48 <= y2 && y2 <= 57 && 48
            <= y3 && y3 <= 57 && 48 <= m0 && m0 <= 57 && 48 <= m1 && m1 <= 57 && 48 <= d0 && d0
            <= 57 && 48 <= d1 && d1 <= 57;
        if !all_digits || dash1 != '-' || dash2 != '-' {
            proof {
                assert forall|d: Date| !(d.wf() && s@ == date_chars(d)) by {
                    if d.wf() && s@ == date_chars(d) {
                        lemma_date_chars_inverts(d);
                    }
                }
            }
            return None;
        }
        let year = ((y0 - 48) * 1000 + (y1 - 48) * 100 + (y2 - 48) * 10 + (y3 - 48)) as u16;
        let month = ((m0 - 48) * 10 + (m1 - 48)) as u8;
        let day = ((d0 - 48) * 10 + (d1 - 48)) as u8;
        proof {
            assert forall|d: Date|
                d.wf() && s@ == date_chars(d) implies d == (Date { year, month, day }) by {
                lemma_date_chars_inverts(d);
            }
        }
        match Date::from_ymd(year, month, day) {
            Some(d) => {
                proof {
                    lemma_four_digit_sum((y0 - 48) as int, (y1 - 48) as int, (y2 - 48) as int, (y3
                        - 48) as int);
                    lemma_two_digit_sum((m0 - 48) as int, (m1 - 48) as int);
                    lemma_two_digit_sum((d0 - 48) as int, (d1 - 48) as int);
                    lemma_digit_char_of_val(s@[0]);
                    lemma_digit_char_of_val(s@[1]);
                    lemma_digit_char_of_val(s@[2]);
                    lemma_digit_char_of_val(s@[3]);
                    lemma_digit_char_of_val(s@[5]);
                    lemma_digit_char_of_val(s@[6]);
                    lemma_digit_char_of_val(s@[8]);
                    lemma_digit_char_of_val(s@[9]);
                    assert(s@ =~= date_chars(d));
                }
                Some(d)
            },
            None => None,
        }
    }

    /// The date today, in UTC.
    ///
    /// Falls back to the epoch date when the clock cannot be read or
    /// reports a year outside the four-digit range.
    pub fn today() -> (d: Date)
        ensures
            d.wf(),
    {
        let (y, m, dd) = today_ymd();
        if 0 <= y && y <= 9999 {
            match Date::from_ymd(y as u16, m as u8, dd as u8) {
                Some(d) => {
                    return d;
                },
                None => {},
            }
        }
        Date { year: 1970, month: 1, day: 1 }
    }
}

/// Relies on chrono's `DateTime::from_timestamp_secs` and the `Datelike`
/// `year`/`month`/`day` accessors: the current civil date in UTC, whose
/// month is in 1..=12 and whose day is in 1..=31.  The clock is read over
/// a fallible path: a clock before the epoch, or one past chrono's range,
/// yields the epoch date's values instead of a panic.
#[verifier::external_body]
fn today_ymd() -> (r: (i64, u8, u8))
    ensures
        1 <= r.1 <= 12,
        1 <= r.2 <= 31,
{
    let since_epoch = std::time::SystemTime::now()
        .duration_since(std::time::UNIX_EPOCH)
        .ok()
        .and_then(|elapsed| i64::try_from(elapsed.as_secs()).ok());
    match since_epoch.and_then(chrono::DateTime::<chrono::Utc>::from_timestamp_secs) {
        Some(now) => {
            let d = now.date_naive();
            (
                chrono::Datelike::year(&d) as i64,
                chrono::Datelike::month(&d) as u8,
                chrono::Datelike::day(&d) as u8,
            )
        },
        None => (1970, 1, 1),
    }
}

} // verus!
