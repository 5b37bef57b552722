//! Calendar dates as plain year/month/day numbers, plus the trusted
//! boundary to chrono for parsing, formatting and reading the clock.
//!
//! Quests record their last completion as a `YYYY-MM-DD` string (or the
//! empty string for "never completed"); the completion rule only ever works
//! on the parsed numeric form defined here.

use vstd::prelude::*;

verus! {

/// A calendar date as plain year/month/day numbers; the only date
/// representation the core logic reasons about.
#[derive(Clone, Copy, PartialEq, Eq, Structural, Debug)]
pub struct Date {
    pub year: i32,
    pub month: u32,
    pub day: u32,
}

impl View for Date {
    type V = (int, int, int);

    open spec fn view(&self) -> (int, int, int) {
        (self.year as int, self.month as int, self.day as int)
    }
}

/// Proleptic Gregorian leap-year rule.
pub open spec fn spec_is_leap_year(y: int) -> bool {
    (y % 4 == 0 && y % 100 != 0) || y % 400 == 0
}

/// Number of days in the given month of the given year.
pub open spec fn spec_days_in_month(y: int, m: int) -> int {
    if m == 2 {
        if spec_is_leap_year(y) {
            29
        } else {
            28
        }
    } else if m == 4 || m == 6 || m == 9 || m == 11 {
        30
    } else {
        31
    }
}

/// A real calendar date whose year the four-digit `YYYY-MM-DD` encoding
/// covers.
pub open spec fn valid_ymd(d: (int, int, int)) -> bool {
    &&& 0 <= d.0 <= 9999
    &&& 1 <= d.1 <= 12
    &&& 1 <= d.2 <= spec_days_in_month(d.0, d.1)
}

impl Date {
    /// Whether this value denotes a real calendar date (see [`valid_ymd`]).
    pub open spec fn wf(&self) -> bool {
        valid_ymd(self@)
    }

    /// Runtime check for [`Date::wf`], so that unverified callers can
    /// establish the preconditions of the operations that take a date.
    pub fn is_valid(&self) -> (r: bool)
        ensures
            r == self.wf(),
    {
        let leap = (self.year % 4 == 0 && self.year % 100 != 0) || self.year % 400 == 0;
        let days: u32 = if self.month == 2 {
            if leap {
                29
            } else {
                28
            }
        } else if self.month == 4 || self.month == 6 || self.month == 9 || self.month == 11 {
            30
        } else {
            31
        };
        0 <= self.year && self.year <= 9999 && 1 <= self.month && self.month <= 12 && 1 <= self.day
            && self.day <= days
    }
}

/// What `chrono::NaiveDate::parse_from_str` with the `%Y-%m-%d` format
/// yields on a given string: a year/month/day triple, or `None` when the
/// string is not a valid calendar date in that format.
pub uninterp spec fn parse_ymd(s: Seq<char>) -> Option<(int, int, int)>;

/// Relies on `chrono::NaiveDate::parse_from_str` with the fixed format
/// `%Y-%m-%d`: the result depends on the characters of `s` alone.
#[verifier::external_body]
pub(crate) fn parse_date(s: &str) -> (r: Option<Date>)
    ensures
        r is Some <==> parse_ymd(s@) is Some,
        r matches Some(d) ==> parse_ymd(s@) == Some(d@),
{
    match chrono::NaiveDate::parse_from_str(s, "%Y-%m-%d") {
        Ok(d) => Some(
            Date {
                year: chrono::Datelike::year(&d),
                month: chrono::Datelike::month(&d),
                day: chrono::Datelike::day(&d),
            },
        ),
        Err(_) => None,
    }
}

/// Relies on chrono: `NaiveDate::from_ymd_opt` accepts every real calendar
/// date (the precondition), and the `Display` form of a `NaiveDate` with a
/// year in `0..=9999` is the zero-padded ten-character `YYYY-MM-DD` string,
/// which `parse_from_str` with `%Y-%m-%d` reads back as the same date.
#[verifier::external_body]
pub(crate) fn format_date(d: &Date) -> (r: String)
    requires
        d.wf(),
    ensures
        r@.len() == 10,
        parse_ymd(r@) == Some(d@),
{
    chrono::NaiveDate::from_ymd_opt(d.year, d.month, d.day).expect(
        "a well-formed date is in range",
    ).to_string()
}

/// Relies on `chrono::Local::now().date_naive()`: the current calendar date
/// of the local clock. Assumes the clock reports a date whose year has at
/// most four digits.
#[verifier::external_body]
pub(crate) fn today_date() -> (r: Date)
    ensures
        r.wf(),
{
    let now = chrono::Local::now().date_naive();
    Date {
        year: chrono::Datelike::year(&now),
        month: chrono::Datelike::month(&now),
        day: chrono::Datelike::day(&now),
    }
}

} // verus!
