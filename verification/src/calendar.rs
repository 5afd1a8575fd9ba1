//! Conversion of civil (proleptic Gregorian, UTC) date-times to seconds
//! since the Unix epoch — negative before 1970 — for the fixed calendar the
//! recurrence engine uses. Years 0 through 9999 are supported.

use vstd::prelude::*;

verus! {

/// Whether `y` is a leap year in the Gregorian calendar.
pub open spec fn is_leap_year(y: int) -> bool {
    y % 4 == 0 && (y % 100 != 0 || y % 400 == 0)
}

/// The number of days in year `y`.
pub open spec fn days_in_year(y: int) -> int {
    if is_leap_year(y) {
        366
    } else {
        365
    }
}

/// The number of days from 1970-01-01 to the start of year `y`: negative
/// for years before 1970.
pub open spec fn days_before_year(y: int) -> int
    decreases (if y < 1970 {
        1970 - y
    } else {
        y - 1970
    }),
{
    if y == 1970 {
        0
    } else if y > 1970 {
        days_before_year(y - 1) + days_in_year(y - 1)
    } else {
        days_before_year(y + 1) - days_in_year(y)
    }
}

/// The number of days in month `m` (1-based) of year `y`.
pub open spec fn days_in_month(y: int, m: int) -> int {
    if m == 2 {
        if is_leap_year(y) {
            29
        } else {
            28
        }
    } else if m == 4 || m == 6 || m == 9 || m == 11 {
        30
    } else {
        31
    }
}

/// The number of days in year `y` strictly before month `m` (1-based).
pub open spec fn days_before_month(y: int, m: int) -> int
    decreases m,
{
    if m <= 1 {
        0
    } else {
        days_before_month(y, m - 1) + days_in_month(y, m - 1)
    }
}

/// The day number of the civil date `y-m-d`, with 1970-01-01 as day zero.
pub open spec fn epoch_days(y: int, m: int, d: int) -> int {
    days_before_year(y) + days_before_month(y, m) + (d - 1)
}

/// Whether the civil date-time lies in the supported range: years 0
/// through 9999, a real calendar day, and a time of day on the 24-hour
/// clock.
pub open spec fn valid_civil(y: int, m: int, d: int, h: int, mi: int, s: int) -> bool {
    &&& 0 <= y <= 9999
    &&& 1 <= m <= 12
    &&& 1 <= d <= days_in_month(y, m)
    &&& 0 <= h < 24
    &&& 0 <= mi < 60
    &&& 0 <= s < 60
}

/// The civil date-time as seconds since the Unix epoch.
pub open spec fn epoch_seconds(y: int, m: int, d: int, h: int, mi: int, s: int) -> int {
    epoch_days(y, m, d) * 86400 + h * 3600 + mi * 60 + s
}

proof fn lemma_days_before_year_bounds(y: int)
    requires
        0 <= y <= 10000,
    ensures
        y >= 1970 ==> 0 <= days_before_year(y) <= (y - 1970) * 366,
        y < 1970 ==> -((1970 - y) * 366) <= days_before_year(y) <= 0,
    decreases (if y < 1970 {
        1970 - y
    } else {
        y - 1970
    }),
{
    if y > 1970 {
        lemma_days_before_year_bounds(y - 1);
    } else if y < 1970 {
        lemma_days_before_year_bounds(y + 1);
    }
}

proof fn lemma_days_before_month_bounds(y: int, m: int)
    requires
        1 <= m <= 13,
    ensures
        0 <= days_before_month(y, m) <= (m - 1) * 31,
    decreases m,
{
    if m > 1 {
        lemma_days_before_month_bounds(y, m - 1);
    }
}

fn days_before_year_exec(y: u64) -> (r: i64)
    requires
        y <= 9999,
    ensures
        r == days_before_year(y as int),
{
    let mut acc: i64 = 0;
    let mut yy: u64 = 1970;
    if y >= 1970 {
        while yy < y
            invariant
                1970 <= yy <= y <= 9999,
                acc == days_before_year(yy as int),
            decreases y - yy,
        {
            proof {
                lemma_days_before_year_bounds(yy as int);
            }
            let leap = yy % 4 == 0 && (yy % 100 != 0 || yy % 400 == 0);
            acc = acc + if leap {
                366
            } else {
                365
            };
            yy = yy + 1;
        }
    } else {
        while yy > y
            invariant
                y <= yy <= 1970,
                acc == days_before_year(yy as int),
            decreases yy - y,
        {
            yy = yy - 1;
            proof {
                lemma_days_before_year_bounds(yy as int);
            }
            let leap = yy % 4 == 0 && (yy % 100 != 0 || yy % 400 == 0);
            acc = acc - if leap {
                366
            } else {
                365
            };
        }
    }
    acc
}

fn days_in_month_exec(y: u64, m: u64) -> (r: i64)
    requires
        1 <= m <= 12,
    ensures
        r == days_in_month(y as int, m as int),
{
    if m == 2 {
        let leap = y % 4 == 0 && (y % 100 != 0 || y % 400 == 0);
        if leap {
            29
        } else {
            28
        }
    } else if m == 4 || m == 6 || m == 9 || m == 11 {
        30
    } else {
        31
    }
}

fn days_before_month_exec(y: u64, m: u64) -> (r: i64)
    requires
        1 <= m <= 12,
    ensures
        r == days_before_month(y as int, m as int),
{
    let mut acc: i64 = 0;
    let mut mm: u64 = 1;
    while mm < m
        invariant
            1 <= mm <= m <= 12,
            acc == days_before_month(y as int, mm as int),
        decreases m - mm,
    {
        proof {
            lemma_days_before_month_bounds(y as int, mm as int);
        }
        acc = acc + days_in_month_exec(y, mm);
        mm = mm + 1;
    }
    acc
}

/// Converts a civil UTC date-time to seconds since the Unix epoch, or `None`
/// when any field lies outside the supported range.
pub fn civil_to_epoch(y: u64, m: u64, d: u64, h: u64, mi: u64, s: u64) -> (r: Option<i64>)
    ensures
        r is Some <==> valid_civil(y as int, m as int, d as int, h as int, mi as int, s as int),
        r matches Some(t) ==> t == epoch_seconds(
            y as int,
            m as int,
            d as int,
            h as int,
            mi as int,
            s as int,
        ),
{
    if !(y <= 9999) {
        return None;
    }
    if !(1 <= m && m <= 12) {
        return None;
    }
    let dim = days_in_month_exec(y, m);
    if !(1 <= d && d <= 31 && d as i64 <= dim) {
        return None;
    }
    if !(h < 24 && mi < 60 && s < 60) {
        return None;
    }
    proof {
        lemma_days_before_year_bounds(y as int);
        lemma_days_before_month_bounds(y as int, m as int);
    }
    let days: i64 = days_before_year_exec(y) + days_before_month_exec(y, m) + (d as i64 - 1);
    Some(days * 86400 + (h as i64) * 3600 + (mi as i64) * 60 + s as i64)
}

} // verus!
