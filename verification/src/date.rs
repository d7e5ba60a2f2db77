//! Calendar dates for reminder due dates, held as plain year/month/day
//! values. Parsing and formatting in the `YYYY-MM-DD` form go through
//! `chrono`.

use chrono::Datelike;
use vstd::prelude::*;

verus! {

/// A calendar date of the proleptic Gregorian calendar.
#[derive(Clone, Copy, Debug, PartialEq, Eq, Structural)]
pub struct Date {
    pub year: i32,
    pub month: u32,
    pub day: u32,
}

/// Whether `y` is a leap year.
pub open spec fn is_leap_year(y: int) -> bool {
    (y % 4 == 0 && y % 100 != 0) || y % 400 == 0
}

/// Number of days of month `m` in year `y`.
pub open spec fn days_in_month(y: int, m: int) -> int {
    if m == 2 {
        if is_leap_year(y) {
            29
        } else {
            28
        }
    } else if m == 4 || m == 6 || m == 9 || m == 11 {
        30
    } else {
        31
    }
}

/// The dates `chrono::NaiveDate` can hold: years -262143 to 262142 and days
/// that exist in their month.
pub open spec fn valid_ymd(y: int, m: int, d: int) -> bool {
    &&& -262143 <= y <= 262142
    &&& 1 <= m <= 12
    &&& 1 <= d <= days_in_month(y, m)
}

/// What `chrono` reads from a text in the `"%Y-%m-%d"` form: year, month
/// and day, or `None` when the text is not such a date.
pub uninterp spec fn parse_ymd(s: Seq<char>) -> Option<(i32, u32, u32)>;

/// The decimal digit `d` (0 to 9).
pub open spec fn digit(d: nat) -> char {
    seq!['0', '1', '2', '3', '4', '5', '6', '7', '8', '9'][d as int]
}

/// `n` in decimal, without leading zeros.
pub open spec fn decimal(n: nat) -> Seq<char>
    decreases n,
{
    if n < 10 {
        seq![digit(n)]
    } else {
        decimal(n / 10).push(digit(n % 10))
    }
}

/// `s` with `'0'`s in front up to `width` characters.
pub open spec fn zero_pad(s: Seq<char>, width: nat) -> Seq<char> {
    if s.len() >= width {
        s
    } else {
        Seq::new((width - s.len()) as nat, |i: int| '0') + s
    }
}

/// The `%Y` field: years 0 to 9999 as four digits, other years with their
/// sign in front of at least four digits.
pub open spec fn year_text(y: int) -> Seq<char> {
    if 0 <= y <= 9999 {
        zero_pad(decimal(y as nat), 4)
    } else if y > 9999 {
        seq!['+'] + zero_pad(decimal(y as nat), 4)
    } else {
        seq!['-'] + zero_pad(decimal((-y) as nat), 4)
    }
}

/// A date in the `"%Y-%m-%d"` form: the year field, then month and day as
/// two digits each, separated by `-`.
pub open spec fn ymd_text(y: i32, m: u32, d: u32) -> Seq<char> {
    year_text(y as int) + seq!['-'] + zero_pad(decimal(m as nat), 2) + seq!['-'] + zero_pad(
        decimal(d as nat),
        2,
    )
}

impl Date {
    /// Whether this is a date that exists.
    pub open spec fn valid(self) -> bool {
        valid_ymd(self.year as int, self.month as int, self.day as int)
    }

    /// Strictly earlier than `other`, by year, then month, then day.
    pub open spec fn before(self, other: Date) -> bool {
        ||| self.year < other.year
        ||| self.year == other.year && self.month < other.month
        ||| self.year == other.year && self.month == other.month && self.day < other.day
    }

    /// Whether this date is strictly earlier than `other`.
    pub fn is_before(&self, other: &Date) -> (b: bool)
        ensures
            b == self.before(*other),
    {
        self.year < other.year || (self.year == other.year && self.month < other.month) || (
        self.year == other.year && self.month == other.month && self.day < other.day)
    }
}

/// The date written in `s` as `YYYY-MM-DD`, read by
/// `chrono::NaiveDate::parse_from_str(s, "%Y-%m-%d")`.
///
/// The contract ties the result to the name `parse_ymd`, states that a
/// date `chrono` returns exists (a `NaiveDate` always holds a valid date),
/// and that the text `format_date` writes for a date reads back as that
/// date (in chrono's parser, `%Y` takes up to four digits or a sign and
/// any number of digits, `%m` and `%d` up to two digits, `-` itself).
/// Which other texts the grammar accepts is left unsaid.
#[verifier::external_body]
pub(crate) fn parse_date(s: &str) -> (r: Option<Date>)
    ensures
        r == (match parse_ymd(s@) {
            Some(t) => Some(Date { year: t.0, month: t.1, day: t.2 }),
            None => None,
        }),
        r matches Some(d) ==> d.valid(),
        forall|y: i32, m: u32, d: u32|
            #[trigger] ymd_text(y, m, d) == s@ && valid_ymd(y as int, m as int, d as int) ==> r
                == Some(Date { year: y, month: m, day: d }),
{
    chrono::NaiveDate::parse_from_str(s, "%Y-%m-%d").ok().map(|d| Date { year: d.year(), month: d.month(), day: d.day() })
}

/// The date written by `chrono`'s `format("%Y-%m-%d")`.
///
/// In the source, `%Y` writes years 0 to 9999 zero-padded to four digits
/// and other years as `{:+05}`; `%m` and `%d` write two digits, zero-padded.
/// The contract states that text.
#[verifier::external_body]
pub(crate) fn format_date(d: Date) -> (r: String)
    requires
        d.valid(),
    ensures
        r@ == ymd_text(d.year, d.month, d.day),
{
    chrono::NaiveDate::from_ymd_opt(d.year, d.month, d.day).unwrap().format("%Y-%m-%d").to_string()
}

} // verus!
