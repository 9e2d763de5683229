//! Calendar dates of reports: validity, order, the day after, the texts that
//! name a date in records and file names, and parsing through `chrono`.

use crate::text::{zero_padded, zero_padded_string};
use chrono::Datelike;
use vstd::prelude::*;
use vstd::string::*;

verus! {

/// First year that a date can have.
pub const MIN_YEAR: i32 = -262143;

/// Last year that a date can have.
pub const MAX_YEAR: i32 = 262142;

/// A day of the proleptic Gregorian calendar.
#[derive(Clone, Copy, Debug, PartialEq, Eq, Structural)]
pub struct ReportDate {
    pub year: i32,
    pub month: u32,
    pub day: u32,
}

/// Whether `year` has a 29th of February.
pub open spec fn is_leap_year(year: int) -> bool {
    year % 4 == 0 && (year % 100 != 0 || year % 400 == 0)
}

/// Number of days of `month` in `year`; 0 when `month` is no month.
pub open spec fn days_in_month(year: int, month: int) -> int {
    if month == 2 {
        if is_leap_year(year) {
            29
        } else {
            28
        }
    } else if month == 4 || month == 6 || month == 9 || month == 11 {
        30
    } else if 1 <= month <= 12 {
        31
    } else {
        0
    }
}

/// Whether year, month and day name a day that a date can hold.
pub open spec fn valid_ymd(year: int, month: int, day: int) -> bool {
    MIN_YEAR <= year <= MAX_YEAR && 1 <= month <= 12 && 1 <= day <= days_in_month(year, month)
}

/// How a year is written: four digits from 0 to 9999, else a sign and at
/// least four digits.
pub open spec fn year_text(year: int) -> Seq<char> {
    if 0 <= year <= 9999 {
        zero_padded(year as nat, 4)
    } else if year > 9999 {
        seq!['+'] + zero_padded(year as nat, 4)
    } else {
        seq!['-'] + zero_padded((-year) as nat, 4)
    }
}

/// Year, month and day as `YYYY-MM-DD`.
pub open spec fn iso_of(ymd: (int, int, int)) -> Seq<char> {
    year_text(ymd.0) + seq!['-'] + zero_padded(ymd.1 as nat, 2) + seq!['-'] + zero_padded(
        ymd.2 as nat,
        2,
    )
}

/// The date with the given year, month and day.
pub open spec fn date_of(ymd: (int, int, int)) -> ReportDate {
    ReportDate { year: ymd.0 as i32, month: ymd.1 as u32, day: ymd.2 as u32 }
}

/// What `chrono` makes of `text` under the format `fmt`: year, month and day,
/// or the message of its error.
pub uninterp spec fn chrono_parse_spec(text: Seq<char>, fmt: Seq<char>) -> Result<
    (int, int, int),
    Seq<char>,
>;

impl ReportDate {
    /// Year, month and day as integers.
    pub open spec fn ymd(self) -> (int, int, int) {
        (self.year as int, self.month as int, self.day as int)
    }

    /// The date names a day of the calendar.
    pub open spec fn is_valid(self) -> bool {
        valid_ymd(self.year as int, self.month as int, self.day as int)
    }

    /// `self` is an earlier day than `other`.
    pub open spec fn before(self, other: ReportDate) -> bool {
        self.year < other.year || (self.year == other.year && (self.month < other.month || (
        self.month == other.month && self.day < other.day)))
    }

    /// The day after `self`, if a date can hold it.
    pub open spec fn next(self) -> Option<ReportDate> {
        if (self.day as int) < days_in_month(self.year as int, self.month as int) {
            Some(ReportDate { year: self.year, month: self.month, day: (self.day + 1) as u32 })
        } else if self.month < 12 {
            Some(ReportDate { year: self.year, month: (self.month + 1) as u32, day: 1 })
        } else if self.year < MAX_YEAR {
            Some(ReportDate { year: (self.year + 1) as i32, month: 1, day: 1 })
        } else {
            None
        }
    }

    /// The date as `YYYY-MM-DD`.
    pub open spec fn iso_text(self) -> Seq<char> {
        iso_of(self.ymd())
    }

    /// The date as `YYYYMMDD`.
    pub open spec fn compact_text(self) -> Seq<char> {
        year_text(self.year as int) + zero_padded(self.month as nat, 2) + zero_padded(
            self.day as nat,
            2,
        )
    }

    /// Month and day as `MMDD`.
    pub open spec fn month_day_text(self) -> Seq<char> {
        zero_padded(self.month as nat, 2) + zero_padded(self.day as nat, 2)
    }

    /// The date of year, month and day, where they name a day.
    pub fn from_ymd_opt(year: i32, month: u32, day: u32) -> (r: Option<ReportDate>)
        ensures
            r == if valid_ymd(year as int, month as int, day as int) {
                Some(ReportDate { year, month, day })
            } else {
                None
            },
    {
        if year < MIN_YEAR || year > MAX_YEAR || month < 1 || month > 12 || day < 1 {
            return None;
        }
        if day > month_length(year, month) {
            return None;
        }
        Some(ReportDate { year, month, day })
    }

    /// Whether `self` is an earlier day than `other`.
    pub fn is_before(&self, other: &ReportDate) -> (r: bool)
        ensures
            r == self.before(*other),
    {
        self.year < other.year || (self.year == other.year && (self.month < other.month || (
        self.month == other.month && self.day < other.day)))
    }

    /// Whether `self` is a later day than `other`.
    pub fn is_after(&self, other: &ReportDate) -> (r: bool)
        ensures
            r == other.before(*self),
    {
        other.is_before(self)
    }

    /// The day after `self`; `None` after the last day that a date can hold.
    pub fn succ_opt(&self) -> (r: Option<ReportDate>)
        requires
            self.is_valid(),
        ensures
            r == self.next(),
            r is Some ==> r.unwrap().is_valid() && self.before(r.unwrap()),
    {
        if self.day < month_length(self.year, self.month) {
            Some(ReportDate { year: self.year, month: self.month, day: self.day + 1 })
        } else if self.month < 12 {
            Some(ReportDate { year: self.year, month: self.month + 1, day: 1 })
        } else if self.year < MAX_YEAR {
            Some(ReportDate { year: self.year + 1, month: 1, day: 1 })
        } else {
            None
        }
    }

    /// The date as `YYYY-MM-DD`.
    pub fn to_string(&self) -> (r: String)
        ensures
            r@ == self.iso_text(),
    {
        let mut out = year_string(self.year);
        out.append(dash());
        out.append(zero_padded_string(self.month as u64, 2).as_str());
        out.append(dash());
        out.append(zero_padded_string(self.day as u64, 2).as_str());
        out
    }

    /// The date as `YYYYMMDD`.
    pub fn to_compact_string(&self) -> (r: String)
        ensures
            r@ == self.compact_text(),
    {
        let mut out = year_string(self.year);
        out.append(zero_padded_string(self.month as u64, 2).as_str());
        out.append(zero_padded_string(self.day as u64, 2).as_str());
        out
    }

    /// Month and day as `MMDD`.
    pub fn to_month_day_string(&self) -> (r: String)
        ensures
            r@ == self.month_day_text(),
    {
        let mut out = zero_padded_string(self.month as u64, 2);
        out.append(zero_padded_string(self.day as u64, 2).as_str());
        out
    }
}

/// The text of a hyphen.
fn dash() -> (r: &'static str)
    ensures
        r@ == seq!['-'],
{
    let r = "-";
    proof {
        reveal_strlit("-");
        assert(r@ =~= seq!['-']);
    }
    r
}

/// The text of a plus sign.
fn plus() -> (r: &'static str)
    ensures
        r@ == seq!['+'],
{
    let r = "+";
    proof {
        reveal_strlit("+");
        assert(r@ =~= seq!['+']);
    }
    r
}

/// Whether `year` has a 29th of February.
pub fn leap_year(year: i32) -> (r: bool)
    ensures
        r == is_leap_year(year as int),
{
    let shifted: i64 = year as i64 + 2147484000;
    let r4: i64 = shifted % 4;
    let r100: i64 = shifted % 100;
    let r400: i64 = shifted % 400;
    r4 == 0 && (r100 != 0 || r400 == 0)
}

/// Number of days of `month` in `year`; 0 when `month` is no month.
pub fn month_length(year: i32, month: u32) -> (r: u32)
    ensures
        r == days_in_month(year as int, month as int),
{
    if month == 2 {
        if leap_year(year) {
            29
        } else {
            28
        }
    } else if month == 4 || month == 6 || month == 9 || month == 11 {
        30
    } else if 1 <= month && month <= 12 {
        31
    } else {
        0
    }
}

/// How `year` is written in a date.
pub fn year_string(year: i32) -> (r: String)
    ensures
        r@ == year_text(year as int),
{
    if 0 <= year && year <= 9999 {
        zero_padded_string(year as u64, 4)
    } else if year > 9999 {
        let mut out = plus().to_owned();
        out.append(zero_padded_string(year as u64, 4).as_str());
        out
    } else {
        let magnitude: i64 = -(year as i64);
        let mut out = dash().to_owned();
        out.append(zero_padded_string(magnitude as u64, 4).as_str());
        out
    }
}

/// Calls `chrono::NaiveDate::parse_from_str` on `text` with the format `fmt`
/// and hands back year, month and day of the date, or the text of the error.
/// The outcome depends on the two texts alone and is named
/// `chrono_parse_spec`; a date that comes back is a day of the calendar.
#[verifier::external_body]
fn chrono_parse(text: &str, fmt: &str) -> (r: Result<ReportDate, String>)
    ensures
        match r {
            Ok(d) => chrono_parse_spec(text@, fmt@) == Ok::<(int, int, int), Seq<char>>(d.ymd())
                && d.is_valid(),
            Err(e) => chrono_parse_spec(text@, fmt@) == Err::<(int, int, int), Seq<char>>(e@),
        },
{
    match chrono::NaiveDate::parse_from_str(text, fmt) {
        Ok(d) => Ok(ReportDate { year: d.year(), month: d.month(), day: d.day() }),
        Err(e) => Err(e.to_string()),
    }
}

/// The format of a report's date: day, full or short month name, year.
pub open spec fn day_month_year_format() -> Seq<char> {
    "%d %B %Y"@
}

/// What parsing `text` as day, month name and year gives.
pub open spec fn day_month_year(text: Seq<char>) -> Result<(int, int, int), Seq<char>> {
    chrono_parse_spec(text, day_month_year_format())
}

/// Parses `text` as day, month name and year, such as `02 January 2024`.
pub fn parse_day_month_year(text: &str) -> (r: Result<ReportDate, String>)
    ensures
        match r {
            Ok(d) => day_month_year(text@) == Ok::<(int, int, int), Seq<char>>(d.ymd())
                && d.is_valid(),
            Err(e) => day_month_year(text@) == Err::<(int, int, int), Seq<char>>(e@),
        },
{
    chrono_parse(text, "%d %B %Y")
}

} // verus!
