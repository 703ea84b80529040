//! Calendar dates and date-times as plain values, with the chrono calls that
//! the service makes on them.
use vstd::prelude::*;
use chrono::{Datelike, Timelike};
use crate::error::AppError;

verus! {

/// A calendar date (proleptic Gregorian).
#[derive(Clone, Copy, Debug, PartialEq, Eq, Structural)]
pub struct Date {
    pub year: i32,
    pub month: u32,
    pub day: u32,
}

/// A date and a time of day, without a time zone.
#[derive(Clone, Copy, Debug, PartialEq, Eq, Structural)]
pub struct DateTime {
    pub date: Date,
    pub hour: u32,
    pub minute: u32,
    pub second: u32,
    pub nanosecond: u32,
}

/// The first year that chrono's `NaiveDate` can hold.
pub const MIN_YEAR: i32 = -262143;

/// The last year that chrono's `NaiveDate` can hold.
pub const MAX_YEAR: i32 = 262142;

/// Gregorian leap-year rule.
pub open spec fn is_leap_year(year: int) -> bool {
    (year % 4 == 0 && year % 100 != 0) || year % 400 == 0
}

/// Number of days of `month` in `year`.
pub open spec fn month_length(year: int, month: int) -> int {
    if month == 2 {
        if is_leap_year(year) { 29 } else { 28 }
    } else if month == 4 || month == 6 || month == 9 || month == 11 {
        30
    } else {
        31
    }
}

/// Whether the calendar day exists and lies in chrono's range of years.
pub open spec fn date_exists(year: int, month: int, day: int) -> bool {
    &&& MIN_YEAR <= year <= MAX_YEAR
    &&& 1 <= month <= 12
    &&& 1 <= day <= month_length(year, month)
}

/// Whether `d` is the first date that chrono can hold.
pub open spec fn is_first_date(d: Date) -> bool {
    d.year == MIN_YEAR && d.month == 1 && d.day == 1
}

/// The calendar day before `d`.
pub open spec fn previous_day(d: Date) -> Date {
    if d.day > 1 {
        Date { year: d.year, month: d.month, day: (d.day - 1) as u32 }
    } else if d.month > 1 {
        Date {
            year: d.year,
            month: (d.month - 1) as u32,
            day: month_length(d.year as int, d.month - 1) as u32,
        }
    } else {
        Date { year: (d.year - 1) as i32, month: 12, day: 31 }
    }
}

/// chrono `NaiveDate::from_ymd_opt`. Trusted: a date comes back exactly when
/// the calendar day exists within chrono's range of years (its documentation
/// and the range constants of its source), holding the given numbers.
#[verifier::external_body]
pub(crate) fn date_from_ymd(year: i32, month: u32, day: u32) -> (res: Option<Date>)
    ensures
        res is Some <==> date_exists(year as int, month as int, day as int),
        res matches Some(d) ==> d == (Date { year, month, day }),
{
    match chrono::NaiveDate::from_ymd_opt(year, month, day) {
        Some(d) => Some(Date { year: d.year(), month: d.month(), day: d.day() }),
        None => None,
    }
}

/// chrono `NaiveDate - Duration::days(1)`. Trusted: the result is the
/// calendar day before `d`; chrono panics below its first date, which
/// `requires` leaves out.
#[verifier::external_body]
pub(crate) fn date_minus_one_day(d: Date) -> (res: Date)
    requires
        date_exists(d.year as int, d.month as int, d.day as int),
        !is_first_date(d),
    ensures
        res == previous_day(d),
{
    let nd = chrono::NaiveDate::from_ymd_opt(d.year, d.month, d.day).unwrap();
    let p = nd - chrono::Duration::days(1);
    Date { year: p.year(), month: p.month(), day: p.day() }
}

/// What chrono's `NaiveDateTime::parse_from_str` makes of `text` read with
/// `format`, when it succeeds. Named, not defined: it depends on the two
/// arguments alone.
pub uninterp spec fn parsed_date_time(text: Seq<char>, format: Seq<char>) -> Option<DateTime>;

/// chrono `NaiveDateTime::parse_from_str`. Trusted: the result is
/// `parsed_date_time(text@, format@)`; a parse error gives `None`.
#[verifier::external_body]
pub(crate) fn parse_date_time(text: &str, format: &str) -> (res: Option<DateTime>)
    ensures
        res == parsed_date_time(text@, format@),
{
    match chrono::NaiveDateTime::parse_from_str(text, format) {
        Ok(t) => Some(DateTime {
            date: Date { year: t.year(), month: t.month(), day: t.day() },
            hour: t.hour(),
            minute: t.minute(),
            second: t.second(),
            nanosecond: t.nanosecond(),
        }),
        Err(_) => None,
    }
}

/// The first day of the month after (`year`, `month`), as `days_in_month`
/// forms it.
pub open spec fn next_month_start(year: int, month: int) -> (int, int, int) {
    if month == 12 {
        (year + 1, 1, 1)
    } else {
        (year, month + 1, 1)
    }
}

/// Number of days in `month` of `year`: the day of the date before the first
/// day of the following month. Refused with "invalid month" when that first
/// day does not exist.
pub fn days_in_month(year: i32, month: u32) -> (res: Result<u32, AppError>)
    requires
        month < u32::MAX,
        !(month == 12 && year == i32::MAX),
        !(month == 12 && year == MIN_YEAR - 1),
        !(month == 0 && year == MIN_YEAR),
    ensures
        ({
            let (y, m, d) = next_month_start(year as int, month as int);
            match res {
                Ok(n) => date_exists(y, m, d) && n == previous_day(
                    Date { year: y as i32, month: m as u32, day: d as u32 },
                ).day,
                Err(e) => {
                    &&& !date_exists(y, m, d)
                    &&& e matches AppError::BadRequest(msg)
                    &&& msg@ == "invalid month"@
                },
            }
        }),
{
    let next = if month == 12 {
        date_from_ymd(year + 1, 1, 1)
    } else {
        date_from_ymd(year, month + 1, 1)
    };
    match next {
        None => Err(AppError::bad_request("invalid month")),
        Some(first) => {
            let last = date_minus_one_day(first);
            Ok(last.day)
        },
    }
}

/// For every existing month, `days_in_month` is the length of that month.
pub proof fn lemma_days_in_month_is_month_length(year: int, month: int)
    requires
        MIN_YEAR <= year <= MAX_YEAR,
        1 <= month <= 12,
        !(month == 12 && year == MAX_YEAR),
    ensures
        ({
            let (y, m, d) = next_month_start(year, month);
            &&& date_exists(y, m, d)
            &&& previous_day(Date { year: y as i32, month: m as u32, day: d as u32 }).day
                == month_length(year, month)
        }),
{
}

} // verus!
