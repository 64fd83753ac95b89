//! The proleptic Gregorian calendar, with a day taken as its number of days since 1970-01-01.

use chrono::Datelike;
use vstd::prelude::*;

verus! {

/// The years that a date can lie in.
pub const MIN_YEAR: i32 = -262143;

pub const MAX_YEAR: i32 = 262142;

/// The day numbers of the first and the last date of those years.
pub const MIN_DAY: i64 = -96465292;

pub const MAX_DAY: i64 = 95026236;

#[derive(Debug, Clone, Copy, PartialEq, Eq, Structural)]
pub enum Weekday {
    Mon,
    Tue,
    Wed,
    Thu,
    Fri,
    Sat,
    Sun,
}

pub open spec fn is_leap(y: int) -> bool {
    y % 4 == 0 && (y % 100 != 0 || y % 400 == 0)
}

pub open spec fn days_in_month(y: int, m: int) -> int {
    if m == 2 {
        if is_leap(y) {
            29
        } else {
            28
        }
    } else if m == 4 || m == 6 || m == 9 || m == 11 {
        30
    } else {
        31
    }
}

pub open spec fn valid_date(y: int, m: int, d: int) -> bool {
    1 <= m <= 12 && 1 <= d <= days_in_month(y, m)
}

/// The number of the first day of a year.
pub open spec fn year_start(y: int) -> int {
    365 * (y - 1970) + (y - 1) / 4 - (y - 1) / 100 + (y - 1) / 400 - 477
}

/// How many days of the year come before the month.
pub open spec fn days_before_month(y: int, m: int) -> int
    decreases m,
{
    if m <= 1 {
        0
    } else {
        days_before_month(y, m - 1) + days_in_month(y, m - 1)
    }
}

/// The number of a date.
pub open spec fn day_number(y: int, m: int, d: int) -> int {
    year_start(y) + days_before_month(y, m) + d - 1
}

/// The number of a date, where the date exists and its year is in range.
pub open spec fn date_number_of(y: int, m: int, d: int) -> Option<i64> {
    if valid_date(y, m, d) && MIN_YEAR <= y <= MAX_YEAR {
        Some(day_number(y, m, d) as i64)
    } else {
        None
    }
}

/// The weekday of a day number: day 0 is a Thursday.
pub open spec fn weekday_of(n: int) -> Weekday {
    let k = (n + 3) % 7;
    if k == 0 {
        Weekday::Mon
    } else if k == 1 {
        Weekday::Tue
    } else if k == 2 {
        Weekday::Wed
    } else if k == 3 {
        Weekday::Thu
    } else if k == 4 {
        Weekday::Fri
    } else if k == 5 {
        Weekday::Sat
    } else {
        Weekday::Sun
    }
}

/// `chrono::NaiveDate::from_ymd_opt`, with the date taken as its day number: there is one
/// exactly where the date exists and its year is in range.
#[verifier::external_body]
pub(crate) fn date_number(y: i32, m: u32, d: u32) -> (r: Option<i64>)
    ensures
        r == date_number_of(y as int, m as int, d as int),
{
    chrono::NaiveDate::from_ymd_opt(y, m, d).map(|date| i64::from(date.to_epoch_days()))
}

/// The year, month and day of `chrono::NaiveDate::from_epoch_days`: the date with that number.
#[verifier::external_body]
pub(crate) fn date_of(n: i64) -> (r: (i32, u32, u32))
    requires
        MIN_DAY <= n <= MAX_DAY,
    ensures
        date_number_of(r.0 as int, r.1 as int, r.2 as int) == Some(n),
{
    let date = chrono::NaiveDate::from_epoch_days(n as i32).unwrap();
    (date.year(), date.month(), date.day())
}

/// `chrono::NaiveDate::weekday` of the date with that number.
#[verifier::external_body]
pub(crate) fn weekday(n: i64) -> (r: Weekday)
    requires
        MIN_DAY <= n <= MAX_DAY,
    ensures
        r == weekday_of(n as int),
{
    match chrono::NaiveDate::from_epoch_days(n as i32).unwrap().weekday() {
        chrono::Weekday::Mon => Weekday::Mon,
        chrono::Weekday::Tue => Weekday::Tue,
        chrono::Weekday::Wed => Weekday::Wed,
        chrono::Weekday::Thu => Weekday::Thu,
        chrono::Weekday::Fri => Weekday::Fri,
        chrono::Weekday::Sat => Weekday::Sat,
        chrono::Weekday::Sun => Weekday::Sun,
    }
}

proof fn lemma_month_starts(y: int)
    ensures
        days_before_month(y, 13) == 337 + days_in_month(y, 2),
{
    assert(days_before_month(y, 1) == 0);
    assert(days_before_month(y, 2) == 31);
    assert(days_before_month(y, 3) == 31 + days_in_month(y, 2));
    assert(days_before_month(y, 4) == 62 + days_in_month(y, 2));
    assert(days_before_month(y, 5) == 92 + days_in_month(y, 2));
    assert(days_before_month(y, 6) == 123 + days_in_month(y, 2));
    assert(days_before_month(y, 7) == 153 + days_in_month(y, 2));
    assert(days_before_month(y, 8) == 184 + days_in_month(y, 2));
    assert(days_before_month(y, 9) == 215 + days_in_month(y, 2));
    assert(days_before_month(y, 10) == 245 + days_in_month(y, 2));
    assert(days_before_month(y, 11) == 276 + days_in_month(y, 2));
    assert(days_before_month(y, 12) == 306 + days_in_month(y, 2));
}

proof fn lemma_quotient_step(y: int, k: int)
    requires
        k == 4 || k == 100 || k == 400,
    ensures
        y % k == 0 ==> y / k == (y - 1) / k + 1,
        y % k != 0 ==> y / k == (y - 1) / k,
{
}

/// A year has 365 days, and one more where it is a leap year.
pub proof fn lemma_year_length(y: int)
    ensures
        days_before_month(y, 13) == if is_leap(y) {
            366int
        } else {
            365
        },
        year_start(y + 1) == year_start(y) + days_before_month(y, 13),
{
    lemma_month_starts(y);
    lemma_quotient_step(y, 4);
    lemma_quotient_step(y, 100);
    lemma_quotient_step(y, 400);
}

proof fn lemma_month_order(y: int, m: int, k: int)
    requires
        1 <= m <= k,
    ensures
        days_before_month(y, m) <= days_before_month(y, k),
    decreases k,
{
    if m < k {
        lemma_month_order(y, m, k - 1);
    }
}

/// A date lies in its year: from the year's first day to the day before the next year's.
pub proof fn lemma_date_in_year(y: int, m: int, d: int)
    requires
        valid_date(y, m, d),
    ensures
        year_start(y) <= day_number(y, m, d) < year_start(y + 1),
{
    lemma_year_length(y);
    lemma_month_order(y, 1, m);
    lemma_month_order(y, m + 1, 13);
}

/// Years begin in order.
pub proof fn lemma_year_order(y: int, z: int)
    requires
        y <= z,
    ensures
        year_start(y) <= year_start(z),
    decreases z - y,
{
    if y < z {
        lemma_year_order(y, z - 1);
        lemma_year_length(z - 1);
    }
}

/// Dates are numbered in order.
pub proof fn lemma_date_order(y: int, m: int, d: int, z: int, k: int, e: int)
    requires
        valid_date(y, m, d),
        valid_date(z, k, e),
        y < z || (y == z && (m < k || (m == k && d < e))),
    ensures
        day_number(y, m, d) < day_number(z, k, e),
{
    lemma_date_in_year(y, m, d);
    lemma_date_in_year(z, k, e);
    if y < z {
        lemma_year_order(y + 1, z);
    } else if m < k {
        lemma_month_order(y, m + 1, k);
    }
}

/// A day has one date.
pub proof fn lemma_date_unique(y: int, m: int, d: int, z: int, k: int, e: int)
    requires
        valid_date(y, m, d),
        valid_date(z, k, e),
        day_number(y, m, d) == day_number(z, k, e),
    ensures
        y == z,
        m == k,
        d == e,
{
    if y < z || (y == z && (m < k || (m == k && d < e))) {
        lemma_date_order(y, m, d, z, k, e);
    } else if y != z || m != k || d != e {
        lemma_date_order(z, k, e, y, m, d);
    }
}

/// The day after the last of a month is the first of the next month.
pub proof fn lemma_next_month(y: int, m: int)
    requires
        1 <= m <= 12,
    ensures
        m < 12 ==> day_number(y, m, days_in_month(y, m)) + 1 == day_number(y, m + 1, 1),
        m == 12 ==> day_number(y, m, days_in_month(y, m)) + 1 == day_number(y + 1, 1, 1),
{
    if m == 12 {
        lemma_year_length(y);
    }
}

/// The last calendar day (28 to 31) of a month.
pub fn last_day_of_month(year: i32, month: u32) -> (r: u32)
    requires
        1 <= month <= 12,
        MIN_YEAR <= year < MAX_YEAR,
    ensures
        r == days_in_month(year as int, month as int),
{
    let (ny, nm): (i32, u32) = if month == 12 {
        (year + 1, 1)
    } else {
        (year, month + 1)
    };
    match date_number(ny, nm, 1) {
        Some(first) => {
            proof {
                lemma_next_month(year as int, month as int);
                lemma_bounds(ny as int, nm as int, 1);
                lemma_bounds(year as int, month as int, days_in_month(year as int, month as int));
            }
            let (y, m, d) = date_of(first - 1);
            proof {
                lemma_bounds(y as int, m as int, d as int);
                lemma_date_unique(
                    y as int,
                    m as int,
                    d as int,
                    year as int,
                    month as int,
                    days_in_month(year as int, month as int),
                );
            }
            d
        },
        None => 31,
    }
}

/// The dates of the years in range have the day numbers in range.
pub proof fn lemma_bounds(y: int, m: int, d: int)
    requires
        valid_date(y, m, d),
        MIN_YEAR <= y <= MAX_YEAR,
    ensures
        MIN_DAY <= day_number(y, m, d) <= MAX_DAY,
{
    lemma_date_in_year(y, m, d);
    lemma_year_order(MIN_YEAR as int, y);
    lemma_year_order(y + 1, MAX_YEAR + 1);
}

} // verus!
