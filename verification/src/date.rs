//! Civil-date arithmetic for daily checkpoints and archives.
//!
//! Days are named two ways: as a `u32` of the form `YYYYMMDD` in the
//! proleptic Gregorian calendar, and as the Unix time of a day's first
//! second. The model behind both is `spec_civil_days`, the number of days
//! from the calendar's first day (year 1, January 1) to the given date.

use vstd::prelude::*;

verus! {

/// Seconds in a day.
pub const SECONDS_PER_DAY: u64 = 86400;

/// Latest Unix time accepted by `convert_unixtime_to_yyyymmdd`; keeps the
/// resulting year at four digits.
pub const MAX_CONVERTIBLE_UNIXTIME: i64 = 253000000000;

/// Gregorian leap-year rule.
pub open spec fn spec_is_leap_year(y: int) -> bool {
    y % 4 == 0 && (y % 100 != 0 || y % 400 == 0)
}

/// Length of month `m` (1..=12) in year `y`.
pub open spec fn spec_days_in_month(y: int, m: int) -> int {
    if m == 2 {
        if spec_is_leap_year(y) {
            29
        } else {
            28
        }
    } else if m == 4 || m == 6 || m == 9 || m == 11 {
        30
    } else {
        31
    }
}

/// Days in year `y` before the first of month `m`.
pub open spec fn spec_days_before_month(y: int, m: int) -> int
    decreases m,
{
    if m <= 1 {
        0
    } else {
        spec_days_before_month(y, m - 1) + spec_days_in_month(y, m - 1)
    }
}

/// Length of year `y`: 366 in leap years, else 365.
pub open spec fn spec_days_in_year(y: int) -> int {
    spec_days_before_month(y, 13)
}

/// Days from year 1, January 1 to the first day of year `y`.
pub open spec fn spec_days_before_year(y: int) -> int
    decreases y,
{
    if y <= 1 {
        0
    } else {
        spec_days_before_year(y - 1) + spec_days_in_year(y - 1)
    }
}

/// Days from year 1, January 1 to the civil date `(y, m, d)`.
pub open spec fn spec_civil_days(y: int, m: int, d: int) -> int {
    spec_days_before_year(y) + spec_days_before_month(y, m) + (d - 1)
}

/// The year part of a `YYYYMMDD` value.
pub open spec fn spec_year_of(yyyymmdd: u32) -> int {
    yyyymmdd as int / 10000
}

/// The month part of a `YYYYMMDD` value.
pub open spec fn spec_month_of(yyyymmdd: u32) -> int {
    (yyyymmdd as int / 100) % 100
}

/// The day-of-month part of a `YYYYMMDD` value.
pub open spec fn spec_day_of(yyyymmdd: u32) -> int {
    yyyymmdd as int % 100
}

/// A `YYYYMMDD` value names a real calendar date.
pub open spec fn spec_valid_yyyymmdd(yyyymmdd: u32) -> bool {
    &&& 1 <= spec_year_of(yyyymmdd)
    &&& 1 <= spec_month_of(yyyymmdd) <= 12
    &&& 1 <= spec_day_of(yyyymmdd) <= spec_days_in_month(
        spec_year_of(yyyymmdd),
        spec_month_of(yyyymmdd),
    )
}

/// Days from year 1, January 1 to the date a `YYYYMMDD` value names.
pub open spec fn spec_civil_days_of(yyyymmdd: u32) -> int {
    spec_civil_days(spec_year_of(yyyymmdd), spec_month_of(yyyymmdd), spec_day_of(yyyymmdd))
}

/// A year's length is 365 or 366 according to the leap rule.
proof fn lemma_days_in_year(y: int)
    ensures
        spec_days_in_year(y) == if spec_is_leap_year(y) { 366int } else { 365int },
{
    reveal_with_fuel(spec_days_before_month, 14);
}

/// Coarse bounds on the days before a year, for overflow and range proofs.
proof fn lemma_days_before_year_bounds(y: int)
    requires
        1 <= y,
    ensures
        365 * (y - 1) <= spec_days_before_year(y) <= 366 * (y - 1),
    decreases y,
{
    if y > 1 {
        lemma_days_before_year_bounds(y - 1);
        lemma_days_in_year(y - 1);
    }
}

/// Gregorian leap-year test.
pub fn is_leap_year(y: u32) -> (r: bool)
    ensures
        r == spec_is_leap_year(y as int),
{
    y % 4 == 0 && (y % 100 != 0 || y % 400 == 0)
}

/// Length of month `m` of year `y`.
pub fn days_in_month(y: u32, m: u32) -> (r: u32)
    requires
        1 <= m <= 12,
    ensures
        r == spec_days_in_month(y as int, m as int),
        28 <= r <= 31,
{
    if m == 2 {
        if is_leap_year(y) {
            29
        } else {
            28
        }
    } else if m == 4 || m == 6 || m == 9 || m == 11 {
        30
    } else {
        31
    }
}

/// Days in year `y` before the first of month `m`.
fn days_before_month(y: u32, m: u32) -> (r: u32)
    requires
        1 <= m <= 13,
    ensures
        r == spec_days_before_month(y as int, m as int),
        r <= 372,
{
    let mut r: u32 = 0;
    let mut mm: u32 = 1;
    while mm < m
        invariant
            1 <= mm <= m <= 13,
            r == spec_days_before_month(y as int, mm as int),
            r <= 31 * (mm - 1),
        decreases m - mm,
    {
        r = r + days_in_month(y, mm);
        mm = mm + 1;
    }
    r
}

/// Length of year `y`.
fn days_in_year(y: u32) -> (r: u32)
    ensures
        r == spec_days_in_year(y as int),
        365 <= r <= 366,
{
    proof {
        lemma_days_in_year(y as int);
    }
    if is_leap_year(y) {
        366
    } else {
        365
    }
}

/// Days from year 1, January 1 to the first day of year `y`.
fn days_before_year(y: u32) -> (r: u64)
    requires
        1 <= y,
    ensures
        r == spec_days_before_year(y as int),
        r <= 366 * (y - 1),
{
    let mut r: u64 = 0;
    let mut yy: u32 = 1;
    while yy < y
        invariant
            1 <= yy <= y,
            r == spec_days_before_year(yy as int),
            r <= 366 * (yy - 1),
        decreases y - yy,
    {
        r = r + days_in_year(yy) as u64;
        yy = yy + 1;
    }
    r
}

/// Start of the Unix epoch's day count: days from year 1, January 1
/// to 1970, January 1, kept symbolic so that contracts need no magic number.
pub open spec fn spec_epoch_civil_days() -> int {
    spec_days_before_year(1970)
}

/// Unix time of midnight of the date a valid `YYYYMMDD` value names.
pub open spec fn spec_yyyymmdd_unixtime(yyyymmdd: u32) -> int {
    86400 * (spec_civil_days_of(yyyymmdd) - spec_epoch_civil_days())
}

/// Whether a `YYYYMMDD` value names a real calendar date.
pub fn is_valid_yyyymmdd(yyyymmdd: u32) -> (r: bool)
    ensures
        r == spec_valid_yyyymmdd(yyyymmdd),
{
    let (y, m, d) = split_yyyymmdd(yyyymmdd);
    1 <= y && 1 <= m && m <= 12 && 1 <= d && d <= days_in_month(y, m)
}

/// Split a `YYYYMMDD` value into year, month and day-of-month.
pub fn split_yyyymmdd(yyyymmdd: u32) -> (r: (u32, u32, u32))
    ensures
        r.0 == spec_year_of(yyyymmdd),
        r.1 == spec_month_of(yyyymmdd),
        r.2 == spec_day_of(yyyymmdd),
{
    (yyyymmdd / 10000, (yyyymmdd / 100) % 100, yyyymmdd % 100)
}

/// The next calendar day after a valid `YYYYMMDD` date: the result is the
/// valid date exactly one day later.
pub fn next_yyyymmdd_date(yyyymmdd: u32) -> (r: u32)
    requires
        spec_valid_yyyymmdd(yyyymmdd),
        spec_year_of(yyyymmdd) <= 9999,
    ensures
        spec_valid_yyyymmdd(r),
        spec_civil_days_of(r) == spec_civil_days_of(yyyymmdd) + 1,
{
    let (y, m, d) = split_yyyymmdd(yyyymmdd);
    let dim = days_in_month(y, m);
    if d < dim {
        let r = y * 10000 + m * 100 + (d + 1);
        assert(spec_year_of(r) == y && spec_month_of(r) == m && spec_day_of(r) == d + 1)
            by (nonlinear_arith)
            requires
                r == y * 10000 + m * 100 + (d + 1),
                1 <= m <= 12,
                1 <= d + 1 <= 31,
                1 <= y <= 9999,
        ;
        r
    } else if m < 12 {
        let r = y * 10000 + (m + 1) * 100 + 1;
        assert(spec_year_of(r) == y && spec_month_of(r) == m + 1 && spec_day_of(r) == 1)
            by (nonlinear_arith)
            requires
                r == y * 10000 + (m + 1) * 100 + 1,
                1 <= m + 1 <= 12,
                1 <= y <= 9999,
        ;
        r
    } else {
        let r = (y + 1) * 10000 + 100 + 1;
        assert(spec_year_of(r) == y + 1 && spec_month_of(r) == 1 && spec_day_of(r) == 1)
            by (nonlinear_arith)
            requires
                r == (y + 1) * 10000 + 100 + 1,
                1 <= y + 1 <= 10000,
        ;
        assert(spec_days_before_month(y as int, 13) == spec_days_before_month(y as int, 12) + 31);
        r
    }
}

/// The calendar day before a valid `YYYYMMDD` date: the result is the valid
/// date exactly one day earlier.
pub fn prev_yyyymmdd_date(yyyymmdd: u32) -> (r: u32)
    requires
        spec_valid_yyyymmdd(yyyymmdd),
        spec_year_of(yyyymmdd) <= 9999,
        yyyymmdd != 10101,
    ensures
        spec_valid_yyyymmdd(r),
        spec_civil_days_of(r) == spec_civil_days_of(yyyymmdd) - 1,
{
    let (y, m, d) = split_yyyymmdd(yyyymmdd);
    if d > 1 {
        let r = y * 10000 + m * 100 + (d - 1);
        assert(spec_year_of(r) == y && spec_month_of(r) == m && spec_day_of(r) == d - 1)
            by (nonlinear_arith)
            requires
                r == y * 10000 + m * 100 + (d - 1),
                1 <= m <= 12,
                1 <= d - 1 <= 31,
                1 <= y <= 9999,
        ;
        r
    } else if m > 1 {
        let pdim = days_in_month(y, m - 1);
        let r = y * 10000 + (m - 1) * 100 + pdim;
        assert(spec_year_of(r) == y && spec_month_of(r) == m - 1 && spec_day_of(r) == pdim)
            by (nonlinear_arith)
            requires
                r == y * 10000 + (m - 1) * 100 + pdim,
                1 <= m - 1 <= 12,
                1 <= pdim <= 31,
                1 <= y <= 9999,
        ;
        r
    } else {
        let r = (y - 1) * 10000 + 12 * 100 + 31;
        assert(y >= 2);
        assert(spec_year_of(r) == y - 1 && spec_month_of(r) == 12 && spec_day_of(r) == 31)
            by (nonlinear_arith)
            requires
                r == (y - 1) * 10000 + 12 * 100 + 31,
                1 <= y - 1 <= 9999,
        ;
        assert(spec_days_before_month((y - 1) as int, 13) == spec_days_before_month(
            (y - 1) as int,
            12,
        ) + 31);
        r
    }
}

/// Unix time of midnight of the given valid `YYYYMMDD` date.
pub fn convert_yyyymmdd_to_unixtime(yyyymmdd: u32) -> (r: i64)
    requires
        spec_valid_yyyymmdd(yyyymmdd),
    ensures
        r == spec_yyyymmdd_unixtime(yyyymmdd),
{
    let (y, m, d) = split_yyyymmdd(yyyymmdd);
    proof {
        lemma_days_before_year_bounds(y as int);
        lemma_days_before_year_bounds(1970);
    }
    let days: u64 = days_before_year(y) + days_before_month(y, m) as u64 + (d as u64 - 1);
    let epoch: u64 = days_before_year(1970);
    (days as i64 - epoch as i64) * 86400
}

/// The `YYYYMMDD` date whose day contains the given Unix time: the result is
/// valid and lies exactly `unixtime / 86400` days after 1970, January 1.
pub fn convert_unixtime_to_yyyymmdd(unixtime: i64) -> (r: u32)
    requires
        0 <= unixtime <= MAX_CONVERTIBLE_UNIXTIME,
    ensures
        spec_valid_yyyymmdd(r),
        spec_year_of(r) <= 9999,
        spec_civil_days_of(r) == spec_epoch_civil_days() + unixtime / 86400,
{
    proof {
        lemma_days_before_year_bounds(1970);
        lemma_days_before_year_bounds(10000);
    }
    let target: u64 = days_before_year(1970) + (unixtime as u64) / 86400;

    let mut y: u32 = 1;
    let mut rest: u64 = target;
    loop
        invariant
            1 <= y <= 10000,
            target == spec_days_before_year(y as int) + rest,
            target < spec_days_before_year(10000),
        ensures
            1 <= y <= 9999,
            target == spec_days_before_year(y as int) + rest,
            rest < spec_days_in_year(y as int),
        decreases rest,
    {
        proof {
            lemma_days_in_year(y as int);
            if y >= 10000 {
                lemma_days_before_year_bounds(y as int);
            }
        }
        let diy = days_in_year(y);
        if rest < diy as u64 {
            break;
        }
        rest = rest - diy as u64;
        y = y + 1;
    }

    let mut m: u32 = 1;
    while rest >= days_in_month(y, m) as u64
        invariant
            1 <= m <= 12,
            spec_days_before_year(y as int) + spec_days_before_month(y as int, m as int) + rest
                == target,
            rest + spec_days_before_month(y as int, m as int) < spec_days_in_year(y as int),
        decreases 12 - m,
    {
        proof {
            if m == 12 {
                assert(spec_days_before_month(y as int, 13) == spec_days_before_month(y as int, 12)
                    + spec_days_in_month(y as int, 12));
            }
        }
        rest = rest - days_in_month(y, m) as u64;
        m = m + 1;
    }

    let d: u32 = rest as u32 + 1;
    let r = y * 10000 + m * 100 + d;
    assert(spec_year_of(r) == y && spec_month_of(r) == m && spec_day_of(r) == d)
        by (nonlinear_arith)
        requires
            r == y * 10000 + m * 100 + d,
            1 <= m <= 12,
            1 <= d <= 31,
            1 <= y <= 9999,
    ;
    r
}

/// The Unix time of the start of the day that contains `unixtime`.
/// Matches the remainder arithmetic of the driver loop: times at or after
/// the epoch truncate down to midnight; earlier times round toward zero.
pub open spec fn spec_truncated_date(unixtime: i64) -> int {
    if unixtime >= 0 {
        unixtime - unixtime as int % 86400
    } else {
        unixtime + (-(unixtime as int)) % 86400
    }
}

/// Truncate a Unix time to the start of its day.
pub fn truncate_unixtime_to_date(unixtime: i64) -> (r: i64)
    ensures
        r == spec_truncated_date(unixtime),
        unixtime >= 0 ==> r % 86400 == 0 && r <= unixtime < r + 86400,
{
    if unixtime >= 0 {
        let rem: u64 = (unixtime as u64) % 86400;
        unixtime - rem as i64
    } else {
        let mag: i128 = -(unixtime as i128);
        let rem: u64 = ((mag % 86400) as u64);
        unixtime + rem as i64
    }
}

/// Two day-start times are consecutive days.
pub fn is_next_date(current_unixtime_date: i64, next_unixtime_date: i64) -> (r: bool)
    requires
        current_unixtime_date + 86400 <= i64::MAX,
    ensures
        r == (next_unixtime_date == current_unixtime_date + 86400),
{
    next_unixtime_date == current_unixtime_date + 86400
}

} // verus!
