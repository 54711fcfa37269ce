//! Calendar dates as the task files hold them, with their text form and
//! their order.
use vstd::prelude::*;
use chrono::Datelike;
use crate::text::{push_char, push_zero_padded, zero_padded};

verus! {

/// A calendar date (proleptic Gregorian), as a year, a month (1 to 12) and a
/// day of the month (1 to 31).
#[derive(Clone, Copy, Debug, PartialEq, Eq, Structural)]
pub struct Date {
    pub year: i32,
    pub month: u32,
    pub day: u32,
}

/// The magnitude of a year.
pub open spec fn year_magnitude(y: i32) -> nat {
    if y < 0 {
        (-(y as int)) as nat
    } else {
        y as nat
    }
}

/// The text of a date: `YYYY-MM-DD`, the year written with an explicit sign
/// and at least four digits when it is outside 0 to 9999.
pub open spec fn date_text(d: Date) -> Seq<char> {
    let year = if 0 <= d.year <= 9999 {
        zero_padded(d.year as nat, 4)
    } else if d.year < 0 {
        seq!['-'] + zero_padded(year_magnitude(d.year), 4)
    } else {
        seq!['+'] + zero_padded(d.year as nat, 4)
    };
    year + seq!['-'] + zero_padded(d.month as nat, 2) + seq!['-'] + zero_padded(d.day as nat, 2)
}

/// Date `a` comes before date `b`.
pub open spec fn is_before(a: Date, b: Date) -> bool {
    ||| a.year < b.year
    ||| a.year == b.year && a.month < b.month
    ||| a.year == b.year && a.month == b.month && a.day < b.day
}

impl Date {
    /// Appends the text of this date (see [`date_text`]).
    pub fn push_text(&self, s: &mut String)
        ensures
            final(s)@ == old(s)@ + date_text(*self),
    {
        let y = self.year;
        if 0 <= y && y <= 9999 {
            push_zero_padded(s, y as u64, 4);
        } else if y < 0 {
            push_char(s, '-');
            let m: i64 = -(y as i64);
            push_zero_padded(s, m as u64, 4);
        } else {
            push_char(s, '+');
            push_zero_padded(s, y as u64, 4);
        }
        push_char(s, '-');
        push_zero_padded(s, self.month as u64, 2);
        push_char(s, '-');
        push_zero_padded(s, self.day as u64, 2);
        proof {
            let year = if 0 <= y <= 9999 {
                zero_padded(y as nat, 4)
            } else if y < 0 {
                seq!['-'] + zero_padded(year_magnitude(y), 4)
            } else {
                seq!['+'] + zero_padded(y as nat, 4)
            };
            assert(final(s)@ == old(s)@ + (year + seq!['-'] + zero_padded(self.month as nat, 2)
                + seq!['-'] + zero_padded(self.day as nat, 2)));
        }
    }

    /// The text of this date (see [`date_text`]).
    pub fn text(&self) -> (s: String)
        ensures
            s@ == date_text(*self),
    {
        let mut s = String::new();
        self.push_text(&mut s);
        s
    }

    /// Whether this date comes before `other`.
    pub fn before(&self, other: &Date) -> (b: bool)
        ensures
            b == is_before(*self, *other),
    {
        self.year < other.year || (self.year == other.year && self.month < other.month) || (
        self.year == other.year && self.month == other.month && self.day < other.day)
    }
}

/// Today's date in the local time zone: `chrono::Local::now().date_naive()`.
/// It depends on the clock and the time zone, so nothing is stated of it but
/// the month and day ranges that `chrono::Datelike` documents.
#[verifier::external_body]
pub(crate) fn today() -> (d: Date)
    ensures
        1 <= d.month <= 12,
        1 <= d.day <= 31,
{
    let n = chrono::Local::now().date_naive();
    Date { year: n.year(), month: n.month(), day: n.day() }
}

/// What `chrono::NaiveDate::parse_from_str(text, "%Y-%m-%d")` gives, as year,
/// month and day; `None` where it fails.
pub uninterp spec fn parsed_ymd(text: Seq<char>) -> Option<(i32, u32, u32)>;

/// `chrono::NaiveDate::parse_from_str(text, "%Y-%m-%d")`, read out by
/// `chrono::Datelike`. The result is named [`parsed_ymd`] and is a function of
/// the text alone; of a parsed date, the month and day ranges that
/// `chrono::Datelike` documents are stated.
#[verifier::external_body]
fn parse_ymd(text: &str) -> (r: Option<(i32, u32, u32)>)
    ensures
        r == parsed_ymd(text@),
        r matches Some(t) ==> 1 <= t.1 <= 12 && 1 <= t.2 <= 31,
{
    match chrono::NaiveDate::parse_from_str(text, "%Y-%m-%d") {
        Ok(n) => Some((n.year(), n.month(), n.day())),
        Err(_) => None,
    }
}

/// The date of a `YYYY-MM-DD` text, as chrono parses it.
pub open spec fn date_of_parse(p: Option<(i32, u32, u32)>) -> Option<Date> {
    match p {
        Some(t) => Some(Date { year: t.0, month: t.1, day: t.2 }),
        None => None,
    }
}

/// Reads a date written `YYYY-MM-DD`; `None` where chrono refuses it.
pub fn parse_date(text: &str) -> (r: Option<Date>)
    ensures
        r == date_of_parse(parsed_ymd(text@)),
{
    match parse_ymd(text) {
        Some(t) => Some(Date { year: t.0, month: t.1, day: t.2 }),
        None => None,
    }
}

} // verus!
