//! Calendar dates of the proleptic Gregorian calendar, counted in days.
use vstd::prelude::*;

verus! {

pub open spec fn is_leap(y: int) -> bool {
    (y % 4 == 0 && y % 100 != 0) || y % 400 == 0
}

pub open spec fn days_in_month(y: int, m: int) -> int {
    if m == 2 {
        if is_leap(y) { 29 } else { 28 }
    } else if m == 4 || m == 6 || m == 9 || m == 11 {
        30
    } else {
        31
    }
}

/// A year, month and day that name a date within chrono's range of years.
pub open spec fn valid_ymd(y: int, m: int, d: int) -> bool {
    &&& -262143 <= y <= 262142
    &&& 1 <= m <= 12
    &&& 1 <= d <= days_in_month(y, m)
}

/// The days of the year before the first of month `m`.
pub open spec fn days_before_month(y: int, m: int) -> int
    decreases m,
{
    if m <= 1 { 0 } else { days_before_month(y, m - 1) + days_in_month(y, m - 1) }
}

/// The day number of a date: 0001-01-01 is day 1, the day before it day 0.
pub open spec fn day_number(y: int, m: int, d: int) -> int {
    let z = y - 1;
    365 * z + z / 4 - z / 100 + z / 400 + days_before_month(y, m) + d
}

/// The first and the last day that chrono's dates reach.
pub open spec fn min_day() -> int {
    day_number(-262143, 1, 1)
}

pub open spec fn max_day() -> int {
    day_number(262142, 12, 31)
}

/// The day number of a year, month and day, or `None` when they name no date.
/// Calls `chrono::NaiveDate::from_ymd_opt`, which (per its documentation)
/// returns `None` exactly for a day that does not exist, a month or day out of
/// range, or a year outside `-262143..=262142`, and reads the date back with
/// `chrono::Datelike::num_days_from_ce`, which counts days with 0001-01-01 as
/// day 1. The contract states both.
#[verifier::external_body]
fn chrono_day_number(y: i32, m: u32, d: u32) -> (r: Option<i32>)
    ensures
        r is Some <==> valid_ymd(y as int, m as int, d as int),
        r matches Some(n) ==> n == day_number(y as int, m as int, d as int),
{
    match chrono::NaiveDate::from_ymd_opt(y, m, d) {
        Some(date) => Some(chrono::Datelike::num_days_from_ce(&date)),
        None => None,
    }
}

/// A date, kept as its day number.
#[derive(Debug, Clone, Copy, PartialEq, Eq, Structural)]
pub struct Date {
    days: i32,
}

impl View for Date {
    type V = int;

    closed spec fn view(&self) -> int {
        self.days as int
    }
}

impl Date {
    /// The date of a year, month and day, or `None` when they name no date.
    pub fn from_ymd_opt(y: i32, m: u32, d: u32) -> (r: Option<Date>)
        ensures
            r is Some <==> valid_ymd(y as int, m as int, d as int),
            r matches Some(x) ==> x@ == day_number(y as int, m as int, d as int),
    {
        match chrono_day_number(y, m, d) {
            Some(n) => Some(Date { days: n }),
            None => None,
        }
    }

    /// The date `n` days later (earlier for negative `n`).
    pub fn add_days(self, n: i32) -> (r: Date)
        requires
            min_day() <= self@ + n <= max_day(),
        ensures
            r@ == self@ + n,
    {
        proof {
            reveal_with_fuel(days_before_month, 12);
            assert(i32::MIN <= min_day() && max_day() <= i32::MAX);
        }
        Date { days: self.days + n }
    }

    /// The number of days from `earlier` to this date.
    pub fn days_since(&self, earlier: &Date) -> (n: i64)
        ensures
            n == self@ - earlier@,
    {
        self.days as i64 - earlier.days as i64
    }

    /// Whether this date comes after `other`.
    pub fn is_after(&self, other: &Date) -> (b: bool)
        ensures
            b == (self@ > other@),
    {
        self.days > other.days
    }
}

} // verus!
