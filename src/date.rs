//! Calendar dates at day granularity and their ISO text form.

use chrono::Datelike;
use vstd::prelude::*;

verus! {

/// Whether `year` is a leap year of the proleptic Gregorian calendar.
pub open spec fn is_leap_year(year: int) -> bool {
    (year % 4 == 0 && year % 100 != 0) || year % 400 == 0
}

/// Number of days in `month` (1 to 12) of `year`.
pub open spec fn days_in_month(year: int, month: int) -> int {
    if month == 2 {
        if is_leap_year(year) { 29 } else { 28 }
    } else if month == 4 || month == 6 || month == 9 || month == 11 {
        30
    } else {
        31
    }
}

/// The character of a decimal digit `d` (0 to 9).
pub open spec fn digit_char(d: int) -> char {
    ((d + 48) as u8) as char
}

/// `v` written with exactly `width` decimal digits, zeros in front.
pub open spec fn padded_digits(v: nat, width: nat) -> Seq<char>
    decreases width,
{
    if width == 0 {
        Seq::empty()
    } else {
        padded_digits(v / 10, (width - 1) as nat).push(digit_char((v % 10) as int))
    }
}

/// A day of the calendar, as year, month (1 to 12) and day of month.
#[derive(Clone, Copy, Debug, PartialEq, Eq)]
pub struct CalendarDate {
    pub year: i32,
    pub month: u32,
    pub day: u32,
}

impl CalendarDate {
    /// A real day whose year has four digits.
    pub open spec fn is_valid(self) -> bool {
        &&& 0 <= self.year <= 9999
        &&& 1 <= self.month <= 12
        &&& 1 <= self.day <= days_in_month(self.year as int, self.month as int)
    }

    /// The date as `YYYY-MM-DD`.
    pub open spec fn iso(self) -> Seq<char> {
        padded_digits(self.year as nat, 4) + seq!['-'] + padded_digits(self.month as nat, 2)
            + seq!['-'] + padded_digits(self.day as nat, 2)
    }

    /// Builds a date, or `None` when the values name no day with a four-digit year.
    pub fn new(year: i32, month: u32, day: u32) -> (r: Option<CalendarDate>)
        ensures
            r matches Some(d) ==> d == (CalendarDate { year, month, day }),
            r is Some <==> (CalendarDate { year, month, day }).is_valid(),
    {
        if year < 0 || year > 9999 || month < 1 || month > 12 || day < 1 {
            return None;
        }
        let leap = (year % 4 == 0 && year % 100 != 0) || year % 400 == 0;
        let last: u32 = if month == 2 {
            if leap { 29 } else { 28 }
        } else if month == 4 || month == 6 || month == 9 || month == 11 {
            30
        } else {
            31
        };
        if day > last {
            None
        } else {
            Some(CalendarDate { year, month, day })
        }
    }

    /// Today in the local time zone, or `None` when its year is not of four digits.
    pub fn today() -> (r: Option<CalendarDate>)
        ensures
            r matches Some(d) ==> d.is_valid(),
    {
        let (year, month, day) = local_today();
        CalendarDate::new(year, month, day)
    }

    /// The date written as `YYYY-MM-DD`.
    pub fn iso_text(&self) -> (r: String)
        requires
            self.is_valid(),
        ensures
            r@ == self.iso(),
    {
        format_iso(self.year, self.month, self.day)
    }
}

/// Relies on chrono's `Local::now` and `DateTime::date_naive`: year, month and
/// day of the current local date. Nothing is promised of the day it returns.
#[verifier::external_body]
fn local_today() -> (r: (i32, u32, u32)) {
    let d = chrono::Local::now().date_naive();
    (d.year(), d.month(), d.day())
}

/// Relies on chrono's `NaiveDate::from_ymd_opt` and its `%Y-%m-%d` format:
/// a year of 0 to 9999 is written as four zero-padded digits, month and day
/// as two, joined by `-`.
#[verifier::external_body]
fn format_iso(year: i32, month: u32, day: u32) -> (r: String)
    requires
        (CalendarDate { year, month, day }).is_valid(),
    ensures
        r@ == (CalendarDate { year, month, day }).iso(),
{
    match chrono::NaiveDate::from_ymd_opt(year, month, day) {
        Some(d) => d.format("%Y-%m-%d").to_string(),
        None => String::new(),
    }
}

} // verus!
