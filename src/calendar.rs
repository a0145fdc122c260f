use chrono::Datelike;
use vstd::prelude::*;

use crate::instant::{Instant, MAX_DAY, MIN_DAY, NANOS_PER_DAY};

verus! {

/// Leap years of the proleptic Gregorian calendar.
pub open spec fn is_leap_year(year: int) -> bool {
    (year % 4 == 0 && year % 100 != 0) || year % 400 == 0
}

/// Number of days in month `month` (1 to 12) of `year`.
pub open spec fn month_len(year: int, month: int) -> int {
    if month == 2 {
        if is_leap_year(year) {
            29
        } else {
            28
        }
    } else if month == 4 || month == 6 || month == 9 || month == 11 {
        30
    } else {
        31
    }
}

/// Days in the months of `year` that come before `month`.
pub open spec fn days_before_month(year: int, month: int) -> int
    decreases month,
{
    if month <= 1 {
        0
    } else {
        days_before_month(year, month - 1) + month_len(year, month - 1)
    }
}

/// The months before month `m`, together with month `m`, fit in the year.
proof fn lemma_months_fit_year(year: int, m: int)
    requires
        1 <= m <= 12,
    ensures
        days_before_month(year, m) + month_len(year, m) <= year_len(year),
        0 <= days_before_month(year, m),
{
    reveal_with_fuel(days_before_month, 13);
}

/// Number of days in `year`.
pub open spec fn year_len(year: int) -> int {
    if is_leap_year(year) {
        366
    } else {
        365
    }
}

/// Day number (counted from 1970-01-01) of day `d` of month `m` of year `y`, for
/// years from 1 on: the days of the whole years before (365 each, one more in each
/// leap year), of the months before in the year, and of the days before in the month.
#[verifier::opaque]
pub open spec fn days_from_civil(y: int, m: int, d: int) -> int {
    365 * (y - 1) + (y - 1) / 4 - (y - 1) / 100 + (y - 1) / 400 + days_before_month(y, m) + d - 1
        + MIN_DAY
}

/// The proleptic Gregorian date (year, month, day of month) of a day number.
pub uninterp spec fn civil_of(day: int) -> (int, int, int);

/// Relies on chrono's `NaiveDate::from_epoch_days`, `year`, `month` and `day`: the
/// calendar date of a day number counted from 1970-01-01. chrono returns a date for
/// every day number of years 1 to 9999, and a date it returns is always valid; the
/// date is the one whose day number, counted in that calendar, is `day`.
#[verifier::external_body]
pub(crate) fn civil_from_day(day: i32) -> (r: (i32, u32, u32))
    requires
        MIN_DAY <= day <= MAX_DAY,
    ensures
        (r.0 as int, r.1 as int, r.2 as int) == civil_of(day as int),
        1 <= r.0 <= 9999,
        1 <= r.1 <= 12,
        1 <= r.2 <= month_len(r.0 as int, r.1 as int),
        days_from_civil(r.0 as int, r.1 as int, r.2 as int) == day,
{
    let date = chrono::NaiveDate::from_epoch_days(day).unwrap();
    (date.year(), date.month(), date.day())
}

/// Number of days in month `m` (1 to 12) of `year`.
pub fn days_in_month(year: i32, m: u32) -> (r: u32)
    requires
        1 <= m <= 12,
    ensures
        r == month_len(year as int, m as int),
{
    if m == 2 {
        // shift by a multiple of 400 years so that the remainders below are taken of a
        // non-negative number; the leap-year rule repeats every 400 years
        let y: i64 = year as i64 + 2_400_000_000;
        assert(y % 4 == year % 4 && y % 100 == year % 100 && y % 400 == year % 400);
        if (y % 4 == 0 && y % 100 != 0) || y % 400 == 0 {
            29
        } else {
            28
        }
    } else if m == 4 || m == 6 || m == 9 || m == 11 {
        30
    } else {
        31
    }
}

/// Days in the months of `year` that come before month `m`.
fn days_before(year: i32, m: u32) -> (r: u32)
    requires
        1 <= m <= 12,
    ensures
        r == days_before_month(year as int, m as int),
        r <= 341,
{
    let mut total: u32 = 0;
    let mut k: u32 = 1;
    while k < m
        invariant
            1 <= k <= m <= 12,
            total == days_before_month(year as int, k as int),
            total <= 31 * (k - 1),
        decreases m - k,
    {
        total = total + days_in_month(year, k);
        k = k + 1;
    }
    total
}

/// The calendar units that `start_of` and `end_of` round to.
#[derive(Clone, Copy, Debug, PartialEq, Eq, Structural)]
pub enum Of {
    Day,
    Month,
    Year,
}

/// Day number of the first day of the unit that holds `day`.
pub open spec fn unit_start_day(of: Of, day: int) -> int {
    let (y, m, d) = civil_of(day);
    match of {
        Of::Day => day,
        Of::Month => day - (d - 1),
        Of::Year => day - (days_before_month(y, m) + d - 1),
    }
}

/// Day number of the last day of the unit that holds `day`.
pub open spec fn unit_end_day(of: Of, day: int) -> int {
    let (y, m, d) = civil_of(day);
    match of {
        Of::Day => day,
        Of::Month => day + (month_len(y, m) - d),
        Of::Year => day - (days_before_month(y, m) + d - 1) + year_len(y) - 1,
    }
}

/// Midnight at the start of the day, month or year that holds `date`;
/// `None` where that lies before the first representable day.
pub fn start_of(of: Of, date: &Instant) -> (r: Option<Instant>)
    requires
        date.wf(),
    ensures
        r.is_some() <==> MIN_DAY <= unit_start_day(of, date.day as int),
        r.is_some() ==> r.unwrap().wf() && r.unwrap().day == unit_start_day(of, date.day as int)
            && r.unwrap().nanos == 0,
{
    let (y, m, d) = civil_from_day(date.day);
    let back: i64 = match of {
        Of::Day => 0,
        Of::Month => d as i64 - 1,
        Of::Year => days_before(y, m) as i64 + d as i64 - 1,
    };
    let day: i64 = date.day as i64 - back;
    if day < MIN_DAY as i64 {
        None
    } else {
        Some(Instant { day: day as i32, nanos: 0 })
    }
}

/// The last nanosecond of the day, month or year that holds `date`;
/// `None` where that lies past the last representable day.
pub fn end_of(of: Of, date: &Instant) -> (r: Option<Instant>)
    requires
        date.wf(),
    ensures
        r.is_some() <==> unit_end_day(of, date.day as int) <= MAX_DAY,
        r.is_some() ==> r.unwrap().wf() && r.unwrap().day == unit_end_day(of, date.day as int)
            && r.unwrap().nanos == NANOS_PER_DAY - 1,
{
    let (y, m, d) = civil_from_day(date.day);
    let ahead: i64 = match of {
        Of::Day => 0,
        Of::Month => days_in_month(y, m) as i64 - d as i64,
        Of::Year => {
            let len: i64 = if days_in_month(y, 2) == 29 {
                366
            } else {
                365
            };
            assert(len == year_len(y as int));
            proof {
                lemma_months_fit_year(y as int, m as int);
            }
            len - (days_before(y, m) as i64 + d as i64)
        },
    };
    let day: i64 = date.day as i64 + ahead;
    if day > MAX_DAY as i64 {
        None
    } else {
        Some(Instant { day: day as i32, nanos: NANOS_PER_DAY - 1 })
    }
}

} // verus!
