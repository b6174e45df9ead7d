//! Calendar dates.
//!
//! A [`Date`] holds the year, month and day that the `chrono` crate reads
//! out of a date text. Dates are ordered and written here, on those three
//! numbers.

use crate::consts::DATE_FORMAT;
use crate::text::{decimal_padded, push_char, zero_padded};
use vstd::prelude::*;

verus! {

/// A calendar date.
#[derive(Debug, Clone, Copy, PartialEq, Eq, Structural)]
pub struct Date {
    pub year: i32,
    pub month: u32,
    pub day: u32,
}

/// The date that `chrono::NaiveDate::parse_from_str` reads from `text`
/// under the format `format`, where it accepts the text.
pub uninterp spec fn chrono_parse_date(text: Seq<char>, format: Seq<char>) -> Option<Date>;

/// Calls `chrono::NaiveDate::parse_from_str` and copies year, month and day
/// of the date it read; `None` where the crate returns an error.
#[verifier::external_body]
fn parse_date(text: &str, format: &str) -> (r: Option<Date>)
    ensures
        r == chrono_parse_date(text@, format@),
{
    match chrono::NaiveDate::parse_from_str(text, format) {
        Ok(d) => Some(
            Date {
                year: chrono::Datelike::year(&d),
                month: chrono::Datelike::month(&d),
                day: chrono::Datelike::day(&d),
            },
        ),
        Err(_) => None,
    }
}

/// Whether `a` is a date before `b`.
pub open spec fn date_before(a: Date, b: Date) -> bool {
    a.year < b.year || (a.year == b.year && (a.month < b.month || (a.month == b.month && a.day
        < b.day)))
}

/// Whether `a` comes before `b` where a missing date comes before every
/// date.
pub open spec fn optional_date_before(a: Option<Date>, b: Option<Date>) -> bool {
    match (a, b) {
        (None, None) => false,
        (None, Some(_)) => true,
        (Some(_), None) => false,
        (Some(x), Some(y)) => date_before(x, y),
    }
}

/// The year as a date text writes it: four digits for the years 0 to 9999,
/// a sign and at least four digits for the others.
pub open spec fn year_text(year: int) -> Seq<char> {
    if 0 <= year <= 9999 {
        zero_padded(year as nat, 4)
    } else if year < 0 {
        seq!['-'] + zero_padded((-year) as nat, 4)
    } else {
        seq!['+'] + zero_padded(year as nat, 4)
    }
}

/// The date as text: year, month and day with hyphens between them, month
/// and day with two digits.
pub open spec fn date_text(d: Date) -> Seq<char> {
    year_text(d.year as int) + seq!['-'] + zero_padded(d.month as nat, 2) + seq!['-']
        + zero_padded(d.day as nat, 2)
}

impl Date {
    /// The date of the given year, month and day.
    pub fn new(year: i32, month: u32, day: u32) -> (d: Date)
        ensures
            d == (Date { year, month, day }),
    {
        Date { year, month, day }
    }

    /// Reads a date written as year, month and day with hyphens between
    /// them; `None` where `text` is no such date.
    pub fn parse(text: &str) -> (r: Option<Date>)
        ensures
            r == chrono_parse_date(text@, DATE_FORMAT@),
    {
        parse_date(text, DATE_FORMAT)
    }

    /// Whether this date is before `other`.
    pub fn before(&self, other: &Date) -> (b: bool)
        ensures
            b == date_before(*self, *other),
    {
        self.year < other.year || (self.year == other.year && (self.month < other.month || (
        self.month == other.month && self.day < other.day)))
    }

    /// The date as text, such as `2024-01-31`.
    pub fn render(&self) -> (s: String)
        ensures
            s@ == date_text(*self),
    {
        let mut s = String::new();
        if 0 <= self.year && self.year <= 9999 {
            s.append(decimal_padded(self.year as u64, 4).as_str());
        } else if self.year < 0 {
            push_char(&mut s, '-');
            let positive: i64 = -(self.year as i64);
            s.append(decimal_padded(positive as u64, 4).as_str());
            assert(s@ =~= seq!['-'] + zero_padded((-self.year) as nat, 4));
        } else {
            push_char(&mut s, '+');
            s.append(decimal_padded(self.year as u64, 4).as_str());
            assert(s@ =~= seq!['+'] + zero_padded(self.year as nat, 4));
        }
        push_char(&mut s, '-');
        s.append(decimal_padded(self.month as u64, 2).as_str());
        push_char(&mut s, '-');
        s.append(decimal_padded(self.day as u64, 2).as_str());
        assert(s@ =~= date_text(*self));
        s
    }
}

/// Whether `a` comes before `b` where a missing date comes before every
/// date.
pub fn date_comes_before(a: &Option<Date>, b: &Option<Date>) -> (r: bool)
    ensures
        r == optional_date_before(*a, *b),
{
    match (a, b) {
        (None, None) => false,
        (None, Some(_)) => true,
        (Some(_), None) => false,
        (Some(x), Some(y)) => x.before(y),
    }
}

} // verus!
