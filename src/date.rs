//! Dates: how a caller names one, and resolving it to a calendar date through chrono.
use crate::error::VersionBumpError;
use chrono::Datelike;
use vstd::prelude::*;

verus! {

/// The earliest year chrono's `NaiveDate` represents.
pub const MIN_YEAR: i32 = -262143;

/// The latest year chrono's `NaiveDate` represents.
pub const MAX_YEAR: i32 = 262142;

/// The ISO 8601 week number of a date.
pub uninterp spec fn iso_week_of(year: int, month: int, day: int) -> int;

pub open spec fn is_leap_year(year: int) -> bool {
    (year % 4 == 0 && year % 100 != 0) || year % 400 == 0
}

pub open spec fn days_in_month(year: int, month: int) -> int {
    if month == 2 {
        if is_leap_year(year) {
            29
        } else {
            28
        }
    } else if month == 4 || month == 6 || month == 9 || month == 11 {
        30
    } else {
        31
    }
}

/// A day of the proleptic Gregorian calendar within chrono's range.
pub open spec fn is_valid_ymd(year: int, month: int, day: int) -> bool {
    MIN_YEAR <= year <= MAX_YEAR && 1 <= month <= 12 && 1 <= day <= days_in_month(year, month)
}

/// A resolved calendar date: the fields that calendar specifiers read.
#[derive(Debug, Clone, Copy, PartialEq, Eq, Structural)]
pub struct CalendarDate {
    pub year: i32,
    pub month: u32,
    pub day: u32,
    /// The ISO week number.
    pub week: u32,
}

impl CalendarDate {
    /// A real date, with the ISO week that belongs to it.
    pub open spec fn wf(self) -> bool {
        is_valid_ymd(self.year as int, self.month as int, self.day as int) && self.week as int
            == iso_week_of(self.year as int, self.month as int, self.day as int) && 1 <= self.week
            <= 53
    }
}

/// Ways to specify a date.
#[derive(Debug, Clone, Copy, PartialEq, Eq, Structural)]
pub enum Date {
    /// The current date in UTC, as determined when the date is used.
    UtcNow,
    /// The current date in the local time zone, as determined when the date is used.
    LocalNow,
    /// A date given by its fields; it is validated only when used.
    Explicit { year: i32, month: u32, day: u32 },
}

/// Relies on `chrono::NaiveDate::from_ymd_opt`, which gives `None` exactly when the year is
/// outside chrono's range or the month and day do not exist in it, and on `Datelike::iso_week`
/// for the ISO week (1 to 53) of the date it gives.
#[verifier::external_body]
fn resolve_ymd(year: i32, month: u32, day: u32) -> (r: Option<CalendarDate>)
    ensures
        r is Some <==> is_valid_ymd(year as int, month as int, day as int),
        r is Some ==> r->0.year == year && r->0.month == month && r->0.day == day,
        r is Some ==> r->0.week as int == iso_week_of(year as int, month as int, day as int),
        r is Some ==> 1 <= r->0.week <= 53,
{
    match chrono::NaiveDate::from_ymd_opt(year, month, day) {
        Some(d) => Some(
            CalendarDate { year: d.year(), month: d.month(), day: d.day(), week: d.iso_week().week() },
        ),
        None => None,
    }
}

/// Relies on `chrono::Utc::now` and `DateTime::date_naive`: today's date in UTC, which is a
/// date chrono represents; the week from `Datelike::iso_week`.
#[verifier::external_body]
fn utc_today() -> (r: CalendarDate)
    ensures
        is_valid_ymd(r.year as int, r.month as int, r.day as int),
        r.week as int == iso_week_of(r.year as int, r.month as int, r.day as int),
        1 <= r.week <= 53,
{
    let d = chrono::Utc::now().date_naive();
    CalendarDate { year: d.year(), month: d.month(), day: d.day(), week: d.iso_week().week() }
}

/// Relies on `chrono::Local::now` and `DateTime::date_naive`: today's date in the local time
/// zone, which is a date chrono represents; the week from `Datelike::iso_week`.
#[verifier::external_body]
fn local_today() -> (r: CalendarDate)
    ensures
        is_valid_ymd(r.year as int, r.month as int, r.day as int),
        r.week as int == iso_week_of(r.year as int, r.month as int, r.day as int),
        1 <= r.week <= 53,
{
    let d = chrono::Local::now().date_naive();
    CalendarDate { year: d.year(), month: d.month(), day: d.day(), week: d.iso_week().week() }
}

impl Date {
    /// Resolves this date to a calendar date.
    pub fn get_date(&self) -> (r: Result<CalendarDate, VersionBumpError>)
        ensures
            r is Ok ==> r->Ok_0.wf(),
            match *self {
                Date::Explicit { year, month, day } => {
                    &&& r is Ok <==> is_valid_ymd(year as int, month as int, day as int)
                    &&& r is Ok ==> r->Ok_0.year == year && r->Ok_0.month == month
                        && r->Ok_0.day == day
                    &&& r is Err ==> r->Err_0 == VersionBumpError::InvalidDateArguments {
                        year,
                        month,
                        day,
                    }
                },
                _ => r is Ok,
            },
    {
        match self {
            Date::UtcNow => Ok(utc_today()),
            Date::LocalNow => Ok(local_today()),
            Date::Explicit { year, month, day } => match resolve_ymd(*year, *month, *day) {
                Some(d) => Ok(d),
                None => Err(
                    VersionBumpError::InvalidDateArguments { year: *year, month: *month, day: *day },
                ),
            },
        }
    }
}

} // verus!
