//! Calendar dates, held as year, month and day.

use vstd::prelude::*;
use crate::text::{dec_digits, two_digits, zero_pad};

verus! {

/// The earliest year a date may have.
pub const MIN_YEAR: i32 = -262143;

/// The latest year a date may have.
pub const MAX_YEAR: i32 = 262142;

/// A day of the proleptic Gregorian calendar.
#[derive(Debug, Clone, Copy, PartialEq, Eq, Structural)]
pub struct Date {
    pub year: i32,
    pub month: u32,
    pub day: u32,
}

pub open spec fn is_leap_year(y: int) -> bool {
    y % 4 == 0 && (y % 100 != 0 || y % 400 == 0)
}

pub open spec fn days_in_month(y: int, m: int) -> int {
    if m == 2 {
        if is_leap_year(y) {
            29
        } else {
            28
        }
    } else if m == 4 || m == 6 || m == 9 || m == 11 {
        30
    } else {
        31
    }
}

/// `(y, m, d)` names an existing day within the supported range of years.
pub open spec fn valid_ymd(y: int, m: int, d: int) -> bool {
    &&& MIN_YEAR <= y <= MAX_YEAR
    &&& 1 <= m <= 12
    &&& 1 <= d <= days_in_month(y, m)
}

/// The ISO 8601 text of a date, `YYYY-MM-DD`; a year outside `0..=9999`
/// carries an explicit sign and at least four digits.
pub open spec fn iso_label(y: int, m: int, d: int) -> Seq<char> {
    let year = if 0 <= y <= 9999 {
        zero_pad(dec_digits(y as nat), 4)
    } else if y < 0 {
        seq!['-'] + zero_pad(dec_digits((-y) as nat), 4)
    } else {
        seq!['+'] + zero_pad(dec_digits(y as nat), 4)
    };
    year + seq!['-'] + two_digits(m) + seq!['-'] + two_digits(d)
}

/// The calendar day named by the text `text` read in the pattern `pattern`,
/// as chrono's `NaiveDate::parse_from_str` reads it; `None` where it fails.
pub uninterp spec fn date_parsed(text: Seq<char>, pattern: Seq<char>) -> Option<(int, int, int)>;

impl Date {
    pub open spec fn wf(&self) -> bool {
        valid_ymd(self.year as int, self.month as int, self.day as int)
    }

    /// The date `(year, month, day)`, or `None` where no such day exists.
    pub fn new(year: i32, month: u32, day: u32) -> (r: Option<Date>)
        ensures
            r is Some <==> valid_ymd(year as int, month as int, day as int),
            r matches Some(d) ==> d.year == year && d.month == month && d.day == day,
    {
        let d = Date { year, month, day };
        if d.is_valid() {
            Some(d)
        } else {
            None
        }
    }

    /// Whether the fields name an existing day within the supported years.
    pub fn is_valid(&self) -> (r: bool)
        ensures
            r == self.wf(),
    {
        let (year, month, day) = (self.year, self.month, self.day);
        if year < MIN_YEAR || year > MAX_YEAR || month < 1 || month > 12 || day < 1 {
            return false;
        }
        let leap = year % 4 == 0 && (year % 100 != 0 || year % 400 == 0);
        assert(leap == is_leap_year(year as int));
        let last: u32 = if month == 2 {
            if leap {
                29
            } else {
                28
            }
        } else if month == 4 || month == 6 || month == 9 || month == 11 {
            30
        } else {
            31
        };
        day <= last
    }

    /// The ISO 8601 text of the date, as in `2024-12-25`.
    pub fn to_iso_string(&self) -> (r: String)
        requires
            self.wf(),
        ensures
            r@ == iso_label(self.year as int, self.month as int, self.day as int),
    {
        naive_date_text(self)
    }
}

/// Relies on chrono's `NaiveDate::parse_from_str`: reads `text` in `pattern`,
/// and any date it yields exists in chrono's range of years.
#[verifier::external_body]
pub(crate) fn parse_date_pattern(text: &str, pattern: &str) -> (r: Option<Date>)
    ensures
        r is None <==> date_parsed(text@, pattern@) is None,
        r matches Some(d) ==> d.wf() && date_parsed(text@, pattern@) == Some(
            (d.year as int, d.month as int, d.day as int),
        ),
{
    match chrono::NaiveDate::parse_from_str(text, pattern) {
        Ok(d) => Some(Date { year: chrono::Datelike::year(&d), month: chrono::Datelike::month(&d), day: chrono::Datelike::day(&d) }),
        Err(_) => None,
    }
}

/// Relies on chrono's `Display` for `NaiveDate`: `%Y-%m-%d`, with a sign and at
/// least four digits for a year outside `0..=9999`.
#[verifier::external_body]
fn naive_date_text(d: &Date) -> (r: String)
    requires
        d.wf(),
    ensures
        r@ == iso_label(d.year as int, d.month as int, d.day as int),
{
    chrono::NaiveDate::from_ymd_opt(d.year, d.month, d.day).unwrap().to_string()
}

} // verus!
