//! Calendar days, held as chrono's day numbers (January 1 of year 1 is day 1).
//!
//! The calendar itself is chrono's: every conversion between a day number and
//! a calendar date goes through chrono, behind the trusted wrappers below.

use chrono::{Datelike, NaiveDate, Utc};
use chrono_tz::Europe::Berlin;
use vstd::prelude::*;

verus! {

/// Day number of `NaiveDate::MIN` (January 1 of year -262143).
pub const MIN_DAY_NUMBER: i32 = -95746129i32;

/// Day number of `NaiveDate::MAX` (December 31 of year 262142).
pub const MAX_DAY_NUMBER: i32 = 95745399i32;

/// Earliest year that chrono's `NaiveDate` can hold.
pub const MIN_YEAR: i32 = -262143i32;

/// Latest year that chrono's `NaiveDate` can hold.
pub const MAX_YEAR: i32 = 262142i32;

/// A day number that chrono's `NaiveDate` can represent.
pub open spec fn is_day_number(n: int) -> bool {
    MIN_DAY_NUMBER <= n <= MAX_DAY_NUMBER
}

/// Gregorian leap years.
pub open spec fn is_leap_year(y: int) -> bool {
    y % 4 == 0 && (y % 100 != 0 || y % 400 == 0)
}

/// Length of month `m` of year `y` in the proleptic Gregorian calendar.
pub open spec fn days_in_month(y: int, m: int) -> int {
    if m == 2 {
        if is_leap_year(y) {
            29
        } else {
            28
        }
    } else if m == 4 || m == 6 || m == 9 || m == 11 {
        30
    } else {
        31
    }
}

/// `y-m-d` is a date of the proleptic Gregorian calendar within chrono's range.
pub open spec fn is_calendar_date(y: int, m: int, d: int) -> bool {
    &&& MIN_YEAR <= y <= MAX_YEAR
    &&& 1 <= m <= 12
    &&& 1 <= d <= days_in_month(y, m)
}

/// Day `n` lies in year `y`: chrono holds January 1 and December 31 of `y`,
/// and `n` lies between their day numbers.
pub open spec fn year_contains(y: int, n: int) -> bool {
    &&& calendar_day(y, 1, 1) matches Some(jan1) && jan1 <= n
    &&& calendar_day(y, 12, 31) matches Some(dec31) && n <= dec31
}

/// Days of the months before month `m` of year `y`.
pub open spec fn days_before_month(y: int, m: int) -> int {
    let common: int = if m == 1 {
        0
    } else if m == 2 {
        31
    } else if m == 3 {
        59
    } else if m == 4 {
        90
    } else if m == 5 {
        120
    } else if m == 6 {
        151
    } else if m == 7 {
        181
    } else if m == 8 {
        212
    } else if m == 9 {
        243
    } else if m == 10 {
        273
    } else if m == 11 {
        304
    } else {
        334
    };
    if m > 2 && is_leap_year(y) {
        common + 1
    } else {
        common
    }
}

/// Number of days of the proleptic Gregorian calendar from January 1 of
/// year 1 (day 1) to `y-m-d`.
pub open spec fn gregorian_day_number(y: int, m: int, d: int) -> int {
    365 * (y - 1) + (y - 1) / 4 - (y - 1) / 100 + (y - 1) / 400 + days_before_month(y, m) + d
}

/// The day number of `y-m-d` where it is a date chrono holds.
pub open spec fn calendar_day(y: int, m: int, d: int) -> Option<int> {
    if is_calendar_date(y, m, d) {
        Some(gregorian_day_number(y, m, d))
    } else {
        None
    }
}

/// Year (`Datelike::year`) of the `NaiveDate` with the given day number.
pub uninterp spec fn chrono_year(day_number: int) -> int;

/// What `NaiveDate::parse_from_str(text, "%Y-%m-%d")` returns: the day number
/// of the parsed date, or the text of chrono's `ParseError`.
pub uninterp spec fn chrono_parse_iso_date(text: Seq<char>) -> Result<int, Seq<char>>;

/// The text that `NaiveDate`'s `Display` writes for the given day number.
pub uninterp spec fn chrono_date_text(day_number: int) -> Seq<char>;

/// A calendar day, stored as its chrono day number.
#[derive(Clone, Copy, Debug, PartialEq, Eq, Structural)]
pub struct Day {
    n: i32,
}

impl View for Day {
    type V = int;

    closed spec fn view(&self) -> int {
        self.n as int
    }
}

impl Day {
    #[verifier::type_invariant]
    spec fn in_range(self) -> bool {
        is_day_number(self.n as int)
    }

    /// The day with chrono day number `n`, if chrono can represent it.
    pub fn from_number(n: i32) -> (res: Option<Day>)
        ensures
            res.is_some() <==> is_day_number(n as int),
            res matches Some(d) ==> d@ == n,
    {
        if MIN_DAY_NUMBER <= n && n <= MAX_DAY_NUMBER {
            Some(Day { n })
        } else {
            None
        }
    }

    /// The chrono day number of this day.
    pub fn number(&self) -> (n: i32)
        ensures
            n == self@,
            is_day_number(n as int),
    {
        proof {
            use_type_invariant(self);
        }
        self.n
    }

    /// The calendar date `year-month-day`, as chrono's `NaiveDate::from_ymd_opt` builds it.
    pub fn from_ymd(year: i32, month: u32, day: u32) -> (res: Option<Day>)
        ensures
            res.is_some() <==> is_calendar_date(year as int, month as int, day as int),
            res matches Some(d) ==> calendar_day(year as int, month as int, day as int) == Some(d@),
    {
        day_from_ymd(year, month, day)
    }

    /// The day `k` days before this one, if chrono can represent it
    /// (what `self - Duration::days(k)` is on a `NaiveDate`).
    pub fn minus_days(&self, k: u32) -> (res: Option<Day>)
        ensures
            res.is_some() <==> is_day_number(self@ - k),
            res matches Some(d) ==> d@ == self@ - k,
    {
        let n: i32 = self.number();
        if k <= 200_000_000u32 {
            let k32: i32 = k as i32;
            if n >= MIN_DAY_NUMBER + k32 {
                return Some(Day { n: n - k32 });
            }
        }
        None
    }

    /// The calendar year of this day (chrono's `Datelike::year`).
    pub fn year(&self) -> (y: i32)
        ensures
            y == chrono_year(self@),
            year_contains(y as int, self@),
    {
        let n: i32 = self.number();
        year_of_day_number(n)
    }

    /// Parses `text` as `%Y-%m-%d`, as chrono's `NaiveDate::parse_from_str` does.
    pub fn parse_iso(text: &str) -> (res: Result<Day, String>)
        ensures
            match res {
                Ok(d) => chrono_parse_iso_date(text@) == Ok::<int, Seq<char>>(d@),
                Err(e) => chrono_parse_iso_date(text@) == Err::<int, Seq<char>>(e@),
            },
    {
        parse_iso_date(text)
    }

    /// The text chrono's `Display` writes for this day (`YYYY-MM-DD`).
    pub fn text(&self) -> (s: String)
        ensures
            s@ == chrono_date_text(self@),
    {
        let n: i32 = self.number();
        date_text(n)
    }
}

/// Calls `NaiveDate::from_ymd_opt(year, month, day)` and converts the date to
/// its day number (`Datelike::num_days_from_ce`). Claims that chrono returns a
/// date exactly for the days of the proleptic Gregorian calendar within
/// `NaiveDate::MIN..=NaiveDate::MAX` (its documented `None` cases: a day that
/// does not exist, an invalid month or day, a year out of range), and that
/// its day number is the count of days from January 1 of year 1 (day 1), as
/// `num_days_from_ce` documents; as a `NaiveDate` it lies in chrono's range,
/// which the `Day` invariant records.
#[verifier::external_body]
fn day_from_ymd(year: i32, month: u32, day: u32) -> (res: Option<Day>)
    ensures
        res.is_some() <==> is_calendar_date(year as int, month as int, day as int),
        res matches Some(d) ==> calendar_day(year as int, month as int, day as int) == Some(d@),
{
    match NaiveDate::from_ymd_opt(year, month, day) {
        Some(d) => Some(Day { n: d.num_days_from_ce() }),
        None => None,
    }
}

/// Calls `Datelike::year` on the `NaiveDate` with day number `n`
/// (`NaiveDate::from_num_days_from_ce_opt`, which is `Some` on chrono's range).
/// Claims that the result is the named year, and that the day lies between
/// January 1 and December 31 of that year (both of which chrono holds).
#[verifier::external_body]
fn year_of_day_number(n: i32) -> (y: i32)
    requires
        is_day_number(n as int),
    ensures
        y == chrono_year(n as int),
        year_contains(y as int, n as int),
{
    NaiveDate::from_num_days_from_ce_opt(n).unwrap().year()
}

/// Calls `NaiveDate::parse_from_str(text, "%Y-%m-%d")`; a parsed date is
/// converted to its day number, an error to the text of its `Display`.
/// Claims only that the result is the named one; every `NaiveDate` lies in
/// chrono's range, which the `Day` invariant records.
#[verifier::external_body]
fn parse_iso_date(text: &str) -> (res: Result<Day, String>)
    ensures
        match res {
            Ok(d) => chrono_parse_iso_date(text@) == Ok::<int, Seq<char>>(d@),
            Err(e) => chrono_parse_iso_date(text@) == Err::<int, Seq<char>>(e@),
        },
{
    match NaiveDate::parse_from_str(text, "%Y-%m-%d") {
        Ok(d) => Ok(Day { n: d.num_days_from_ce() }),
        Err(e) => Err(e.to_string()),
    }
}

/// Calls `Display` (through `to_string`) on the `NaiveDate` with day number `n`.
/// Claims only that the result is the named text.
#[verifier::external_body]
fn date_text(n: i32) -> (s: String)
    requires
        is_day_number(n as int),
    ensures
        s@ == chrono_date_text(n as int),
{
    NaiveDate::from_num_days_from_ce_opt(n).unwrap().to_string()
}

/// The date of one reading of the clock in Frankfurt (Europe/Berlin), where
/// the ECB publishes its rates. Only a reading of the clock makes one: its
/// field is private to this module, and `berlin_today` is the only function
/// that builds it.
#[derive(Clone, Copy, Debug)]
pub struct ClockDay {
    day: Day,
}

impl View for ClockDay {
    type V = int;

    closed spec fn view(&self) -> int {
        self.day@
    }
}

impl ClockDay {
    /// The day the clock gave.
    pub fn day(&self) -> (d: Day)
        ensures
            d@ == self@,
    {
        self.day
    }
}

/// The day of an optional clock reading.
pub open spec fn clock_view(c: Option<ClockDay>) -> Option<int> {
    match c {
        Some(day) => Some(day@),
        None => None,
    }
}

/// Calls `Utc::now()`, converts the instant to Europe/Berlin with chrono-tz
/// (`with_timezone(&Berlin)`) and takes its calendar date (`date_naive`), as a
/// day number. Claims nothing of which day it is: that depends on the clock.
/// The date is a `NaiveDate`, so it lies in chrono's range, which the `Day`
/// invariant records.
#[verifier::external_body]
pub(crate) fn berlin_today() -> (d: ClockDay) {
    let today = Utc::now().with_timezone(&Berlin).date_naive();
    ClockDay { day: Day { n: today.num_days_from_ce() } }
}

} // verus!
