//! Calendar dates, validated and read by `chrono`.

use vstd::prelude::*;

use chrono::Datelike;

use crate::number::{abs, nat_text, padded, nat_chars, padded_chars};

verus! {

/// A calendar date (proleptic Gregorian).
#[derive(Clone, Copy, Debug, PartialEq, Eq)]
pub struct Date {
    pub year: i32,
    pub month: u32,
    pub day: u32,
}

pub open spec fn is_leap_year(y: int) -> bool {
    (y % 4 == 0 && y % 100 != 0) || y % 400 == 0
}

pub open spec fn days_in_month(y: int, m: int) -> int {
    if m == 2 {
        if is_leap_year(y) {
            29
        } else {
            28
        }
    } else if m == 4 || m == 6 || m == 9 || m == 11 {
        30
    } else {
        31
    }
}

/// The years `chrono::NaiveDate` can hold.
pub open spec fn year_in_range(y: int) -> bool {
    -262143 <= y <= 262142
}

/// `year-month-day` names a day of the calendar that `chrono` can hold.
pub open spec fn valid_date(y: int, m: int, d: int) -> bool {
    &&& year_in_range(y)
    &&& 1 <= m <= 12
    &&& 1 <= d <= days_in_month(y, m)
}

/// The date `year-month-day`, when it exists.
///
/// Calls `chrono::NaiveDate::from_ymd_opt`, which gives `None` exactly for a
/// month or day that does not exist in that year and for a year outside the
/// range `chrono` holds, and otherwise the date with those fields.
#[verifier::external_body]
pub(crate) fn from_ymd(year: i32, month: u32, day: u32) -> (r: Option<Date>)
    ensures
        r == (if valid_date(year as int, month as int, day as int) {
            Some(Date { year, month, day })
        } else {
            None
        }),
{
    match chrono::NaiveDate::from_ymd_opt(year, month, day) {
        Some(d) => Some(Date { year: d.year(), month: d.month(), day: d.day() }),
        None => None,
    }
}

/// The date `chrono::NaiveDate::parse_from_str` reads from `s` with the
/// format `fmt`.
pub uninterp spec fn date_parsed(s: Seq<char>, fmt: Seq<char>) -> Option<Date>;

/// Calls `chrono::NaiveDate::parse_from_str`; its result is named by
/// `date_parsed`. A `NaiveDate` always holds a day that exists. As chrono
/// documents (`parse_from_str("2015-09-05", "%Y-%m-%d")` is 5 September
/// 2015), with the format `%Y-%m-%d` a day that exists, written as a
/// four-digit year, a two-digit month and a two-digit day joined by `-`,
/// reads as that day; a text without any `-` cannot match the format's
/// literal `-` and does not read.
#[verifier::external_body]
pub(crate) fn parse_date_with(s: &str, fmt: &str) -> (r: Option<Date>)
    ensures
        r == date_parsed(s@, fmt@),
        r matches Some(d) ==> valid_date(d.year as int, d.month as int, d.day as int),
        fmt@ == "%Y-%m-%d"@ ==> forall|d: Date|
            0 <= d.year <= 9999 && valid_date(d.year as int, d.month as int, d.day as int) && s@
                == #[trigger] ymd_text(d, "-"@) ==> r == Some(d),
        fmt@ == "%Y-%m-%d"@ && !s@.contains('-') ==> r is None,
{
    match chrono::NaiveDate::parse_from_str(s, fmt) {
        Ok(d) => Some(Date { year: d.year(), month: d.month(), day: d.day() }),
        Err(_) => None,
    }
}

/// A year as `chrono` writes `%Y`: four digits, zero-padded, for years
/// 0 to 9999; otherwise a sign and at least four digits.
pub open spec fn year_text(y: int) -> Seq<char> {
    if 0 <= y <= 9999 {
        padded(y as nat, 4)
    } else {
        (if y > 0 {
            seq!['+']
        } else {
            seq!['-']
        }) + (if abs(y) <= 9999 {
            padded(abs(y) as nat, 4)
        } else {
            nat_text(abs(y) as nat)
        })
    }
}

/// A month or day as `chrono` writes `%m` and `%d`: two digits.
pub open spec fn two_digits(v: int) -> Seq<char> {
    padded(v as nat, 2)
}

/// `year{sep}month{sep}day`, as `%Y{sep}%m{sep}%d`.
pub open spec fn ymd_text(d: Date, sep: Seq<char>) -> Seq<char> {
    year_text(d.year as int) + sep + two_digits(d.month as int) + sep + two_digits(d.day as int)
}

pub fn year_chars(y: i32) -> (r: Vec<char>)
    ensures
        r@ == year_text(y as int),
{
    if 0 <= y && y <= 9999 {
        padded_chars(y as u128, 4)
    } else {
        let mut r: Vec<char> = Vec::new();
        if y > 0 {
            r.push('+');
        } else {
            r.push('-');
        }
        let a: u128 = if y < 0 {
            (-(y as i64)) as u128
        } else {
            y as u128
        };
        let mut ds = if a <= 9999 {
            padded_chars(a, 4)
        } else {
            nat_chars(a)
        };
        r.append(&mut ds);
        r
    }
}

/// Appends `d` as `%Y{sep}%m{sep}%d`.
pub fn push_ymd(out: &mut Vec<char>, d: Date, sep: &str)
    requires
        valid_date(d.year as int, d.month as int, d.day as int),
    ensures
        final(out)@ == old(out)@ + ymd_text(d, sep@),
{
    let ghost start = out@;
    let mut y = year_chars(d.year);
    out.append(&mut y);
    crate::text::push_str(out, sep);
    let mut m = padded_chars(d.month as u128, 2);
    out.append(&mut m);
    crate::text::push_str(out, sep);
    let mut dd = padded_chars(d.day as u128, 2);
    out.append(&mut dd);
    proof {
        assert(out@ =~= start + ymd_text(d, sep@));
    }
}

} // verus!
