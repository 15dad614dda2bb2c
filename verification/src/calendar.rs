//! Civil-calendar arithmetic for snapshot timestamps.
//!
//! A snapshot timestamp is a number of seconds counted on a linear scale from
//! 1970-01-01 00:00:00 of the local civil calendar (no offset is attached; the
//! whole program works in one local timezone, as the snapshot names themselves
//! carry no offset).  This module converts between that linear scale and the
//! civil fields (year, month, day, hour, minute, second) that a snapshot name
//! displays.

use vstd::prelude::*;
use vstd::arithmetic::div_mod::{
    lemma_fundamental_div_mod, lemma_div_is_ordered, lemma_mod_division_less_than_divisor,
};

verus! {

/// A point of the civil calendar, at one-second resolution.
#[derive(Clone, Copy, Debug, PartialEq, Eq, Structural)]
pub struct CivilTime {
    pub year: u32,
    pub month: u32,
    pub day: u32,
    pub hour: u32,
    pub minute: u32,
    pub second: u32,
}

pub open spec fn is_leap_year(y: int) -> bool {
    (y % 4 == 0 && y % 100 != 0) || y % 400 == 0
}

pub open spec fn days_in_year(y: int) -> int {
    if is_leap_year(y) {
        366
    } else {
        365
    }
}

pub open spec fn days_in_month(y: int, m: int) -> int {
    if m == 1 {
        31
    } else if m == 2 {
        if is_leap_year(y) {
            29
        } else {
            28
        }
    } else if m == 3 {
        31
    } else if m == 4 {
        30
    } else if m == 5 {
        31
    } else if m == 6 {
        30
    } else if m == 7 {
        31
    } else if m == 8 {
        31
    } else if m == 9 {
        30
    } else if m == 10 {
        31
    } else if m == 11 {
        30
    } else {
        31
    }
}

/// Number of days of the linear scale that lie before January 1st of year `y`.
pub open spec fn days_before_year(y: int) -> int
    decreases y - 1970,
{
    if y <= 1970 {
        0
    } else {
        days_before_year(y - 1) + days_in_year(y - 1)
    }
}

/// Number of days of year `y` that lie before the first day of month `m`.
pub open spec fn days_before_month(y: int, m: int) -> int
    decreases m,
{
    if m <= 1 {
        0
    } else {
        days_before_month(y, m - 1) + days_in_month(y, m - 1)
    }
}

/// Day number, on the linear scale, of the civil date `y-m-d`.
pub open spec fn days_from_civil(y: int, m: int, d: int) -> int {
    days_before_year(y) + days_before_month(y, m) + (d - 1)
}

pub open spec fn valid_date(y: int, m: int, d: int) -> bool {
    &&& 1970 <= y < 10000
    &&& 1 <= m <= 12
    &&& 1 <= d <= days_in_month(y, m)
}

pub open spec fn valid_clock(h: int, mi: int, s: int) -> bool {
    &&& 0 <= h < 24
    &&& 0 <= mi < 60
    &&& 0 <= s < 60
}

pub open spec fn civil_seconds(y: int, m: int, d: int, h: int, mi: int, s: int) -> int {
    days_from_civil(y, m, d) * 86400 + h * 3600 + mi * 60 + s
}

pub open spec fn civil_valid(c: CivilTime) -> bool {
    valid_date(c.year as int, c.month as int, c.day as int) && valid_clock(
        c.hour as int,
        c.minute as int,
        c.second as int,
    )
}

pub open spec fn civil_to_seconds(c: CivilTime) -> int {
    civil_seconds(
        c.year as int,
        c.month as int,
        c.day as int,
        c.hour as int,
        c.minute as int,
        c.second as int,
    )
}

/// One more second than any representable timestamp: the first instant of year
/// 10000 on the linear scale.
pub open spec fn max_timestamp() -> int {
    days_before_year(10000) * 86400
}

pub open spec fn valid_timestamp(t: int) -> bool {
    0 <= t < max_timestamp()
}

pub proof fn lemma_days_before_year_ordered(y1: int, y2: int)
    requires
        y1 <= y2,
    ensures
        days_before_year(y1) <= days_before_year(y2),
    decreases y2 - y1,
{
    if y1 < y2 {
        lemma_days_before_year_ordered(y1, y2 - 1);
    }
}

pub proof fn lemma_days_before_month_ordered(y: int, m1: int, m2: int)
    requires
        m1 <= m2,
    ensures
        days_before_month(y, m1) <= days_before_month(y, m2),
    decreases m2 - m1,
{
    if m1 < m2 {
        lemma_days_before_month_ordered(y, m1, m2 - 1);
    }
}

/// The twelve months of a year together hold exactly its days.
pub proof fn lemma_months_cover_year(y: int)
    ensures
        days_before_month(y, 13) == days_in_year(y),
{
    reveal_with_fuel(days_before_month, 14);
}

/// Within a valid date, the days before the month plus the day's own offset
/// stay inside the year.
pub proof fn lemma_date_within_year(y: int, m: int, d: int)
    requires
        1 <= m <= 12,
        1 <= d <= days_in_month(y, m),
    ensures
        0 <= days_before_month(y, m) + (d - 1) < days_in_year(y),
{
    lemma_days_before_month_ordered(y, 1, m);
    lemma_months_cover_year(y);
    lemma_days_before_month_ordered(y, m + 1, 13);
    assert(days_before_month(y, m + 1) == days_before_month(y, m) + days_in_month(y, m));
}

/// A valid civil time denotes a valid timestamp.
pub proof fn lemma_civil_seconds_range(y: int, m: int, d: int, h: int, mi: int, s: int)
    requires
        valid_date(y, m, d),
        valid_clock(h, mi, s),
    ensures
        valid_timestamp(civil_seconds(y, m, d, h, mi, s)),
{
    lemma_date_within_year(y, m, d);
    assert(days_before_year(y + 1) == days_before_year(y) + days_in_year(y));
    lemma_days_before_year_ordered(1970, y);
    lemma_days_before_year_ordered(y + 1, 10000);
    assert(0 <= days_from_civil(y, m, d) < days_before_year(10000));
}

pub fn leap_year(y: u32) -> (b: bool)
    ensures
        b == is_leap_year(y as int),
{
    (y % 4 == 0 && y % 100 != 0) || y % 400 == 0
}

pub fn month_days(y: u32, m: u32) -> (d: u32)
    requires
        1 <= m <= 12,
    ensures
        d == days_in_month(y as int, m as int),
{
    if m == 2 {
        if leap_year(y) {
            29
        } else {
            28
        }
    } else if m == 4 || m == 6 || m == 9 || m == 11 {
        30
    } else {
        31
    }
}

pub fn year_days(y: u32) -> (d: u32)
    ensures
        d == days_in_year(y as int),
{
    if leap_year(y) {
        366
    } else {
        365
    }
}

/// Day number of January 1st of year `y`.
pub fn year_start_day(y: u32) -> (n: u64)
    requires
        1970 <= y <= 10000,
    ensures
        n == days_before_year(y as int),
{
    let mut i: u32 = 1970;
    let mut acc: u64 = 0;
    while i < y
        invariant
            1970 <= i <= y <= 10000,
            acc == days_before_year(i as int),
            acc <= (i - 1970) as int * 366,
        decreases y - i,
    {
        acc = acc + year_days(i) as u64;
        i = i + 1;
    }
    acc
}

/// Day-of-year offset of the first day of month `m` of year `y`.
pub fn month_start_day(y: u32, m: u32) -> (n: u32)
    requires
        1 <= m <= 13,
    ensures
        n == days_before_month(y as int, m as int),
{
    let mut i: u32 = 1;
    let mut acc: u32 = 0;
    while i < m
        invariant
            1 <= i <= m <= 13,
            acc == days_before_month(y as int, i as int),
            acc <= (i - 1) as int * 31,
        decreases m - i,
    {
        acc = acc + month_days(y, i);
        i = i + 1;
    }
    acc
}

/// The first second past the representable range, as a machine integer.
pub fn max_timestamp_seconds() -> (m: i64)
    ensures
        m == max_timestamp(),
        m >= 86400,
{
    proof {
        bound_days_before_year_10000();
        assert(days_before_year(1970) == 0);
        assert(days_before_year(1971) == 365);
        lemma_days_before_year_ordered(1971, 10000);
    }
    let d: u64 = year_start_day(10000);
    (d * 86400) as i64
}

/// Timestamp, on the linear scale, of a valid civil time.
pub fn seconds_from_civil(c: CivilTime) -> (t: i64)
    requires
        civil_valid(c),
    ensures
        t == civil_to_seconds(c),
        valid_timestamp(t as int),
{
    proof {
        lemma_civil_seconds_range(
            c.year as int,
            c.month as int,
            c.day as int,
            c.hour as int,
            c.minute as int,
            c.second as int,
        );
        lemma_days_before_year_ordered(c.year as int, 10000);
        bound_days_before_year_10000();
    }
    let days: u64 = year_start_day(c.year) + month_start_day(c.year, c.month) as u64 + (c.day
        - 1) as u64;
    let secs: u64 = days * 86400 + c.hour as u64 * 3600 + c.minute as u64 * 60 + c.second as u64;
    secs as i64
}

/// A concrete bound that keeps the day arithmetic inside the machine integers.
proof fn bound_days_before_year_10000()
    ensures
        days_before_year(10000) <= 8030 * 366,
{
    bound_days_before_year_rec(10000);
}

/// A concrete bound that keeps timestamp arithmetic inside the machine
/// integers.
pub proof fn lemma_max_timestamp_bound()
    ensures
        max_timestamp() <= 8030 * 366 * 86400,
{
    bound_days_before_year_10000();
}

proof fn bound_days_before_year_rec(y: int)
    requires
        1970 <= y <= 10000,
    ensures
        days_before_year(y) <= (y - 1970) * 366,
    decreases y,
{
    if y > 1970 {
        bound_days_before_year_rec(y - 1);
    }
}

/// Civil fields of a valid timestamp.
pub fn civil_from_timestamp(t: i64) -> (c: CivilTime)
    requires
        valid_timestamp(t as int),
    ensures
        civil_valid(c),
        civil_to_seconds(c) == t,
{
    let tu: u64 = t as u64;
    let days: u64 = tu / 86400;
    let rem: u64 = tu % 86400;
    let hour: u32 = (rem / 3600) as u32;
    let rem2: u64 = rem % 3600;
    let minute: u32 = (rem2 / 60) as u32;
    let second: u32 = (rem2 % 60) as u32;
    proof {
        lemma_fundamental_div_mod(tu as int, 86400);
        lemma_mod_division_less_than_divisor(tu as int, 86400);
        lemma_fundamental_div_mod(rem as int, 3600);
        lemma_mod_division_less_than_divisor(rem as int, 3600);
        lemma_fundamental_div_mod(rem2 as int, 60);
        lemma_mod_division_less_than_divisor(rem2 as int, 60);
        lemma_div_is_ordered(rem as int, 86399, 3600);
        lemma_div_is_ordered(rem2 as int, 3599, 60);
        // days stays under the day count of year 10000
        lemma_div_is_ordered(tu as int, max_timestamp() - 1, 86400);
        assert((max_timestamp() - 1) / 86400 < days_before_year(10000)) by {
            lemma_fundamental_div_mod(max_timestamp() - 1, 86400);
            lemma_mod_division_less_than_divisor(max_timestamp() - 1, 86400);
        };
    }
    let ymd: (u32, u32, u32) = civil_from_day_number(days);
    let year: u32 = ymd.0;
    let month: u32 = ymd.1;
    let day: u32 = ymd.2;
    proof {
        assert(days_from_civil(year as int, month as int, day as int) * 86400 + hour as int * 3600
            + minute as int * 60 + second as int == t);
    }
    CivilTime { year, month, day, hour, minute, second }
}

/// Civil date of a day number of the linear scale.
pub fn civil_from_day_number(days: u64) -> (r: (u32, u32, u32))
    requires
        days < days_before_year(10000),
    ensures
        valid_date(r.0 as int, r.1 as int, r.2 as int),
        days_from_civil(r.0 as int, r.1 as int, r.2 as int) == days,
{
    let mut year: u32 = 1970;
    let mut acc: u64 = 0;
    proof {
        bound_days_before_year_10000();
    }
    while acc + year_days(year) as u64 <= days
        invariant
            1970 <= year <= 9999,
            acc == days_before_year(year as int),
            acc <= days,
            days < days_before_year(10000),
            acc <= 8030 * 366,
        decreases 10000 - year,
    {
        proof {
            if year == 9999 {
                assert(days_before_year(10000) == days_before_year(9999) + days_in_year(9999));
                assert(false);
            }
            lemma_days_before_year_ordered(year as int + 1, 10000);
            bound_days_before_year_rec(year as int + 1);
        }
        acc = acc + year_days(year) as u64;
        year = year + 1;
    }
    // days now falls inside `year`
    let day_of_year: u64 = days - acc;
    proof {
        assert(days < acc + days_in_year(year as int));
        lemma_months_cover_year(year as int);
    }
    let mut month: u32 = 1;
    let mut macc: u32 = 0;
    while (macc + month_days(year, month)) as u64 <= day_of_year
        invariant
            1 <= month <= 12,
            macc == days_before_month(year as int, month as int),
            macc as int <= day_of_year,
            day_of_year < days_in_year(year as int),
            days_before_month(year as int, 13) == days_in_year(year as int),
            macc <= 11 * 31,
        decreases 12 - month,
    {
        proof {
            if month == 12 {
                assert(days_before_month(year as int, 13) == days_before_month(year as int, 12)
                    + days_in_month(year as int, 12));
                assert(false);
            }
            lemma_days_before_month_ordered(year as int, month as int + 1, 13);
            bound_days_before_month(year as int, month as int + 1);
        }
        macc = macc + month_days(year, month);
        month = month + 1;
    }
    let day: u32 = (day_of_year - macc as u64) as u32 + 1;
    proof {
        assert(day_of_year < macc + days_in_month(year as int, month as int));
    }
    (year, month, day)
}

proof fn bound_days_before_month(y: int, m: int)
    requires
        1 <= m <= 13,
    ensures
        days_before_month(y, m) <= (m - 1) * 31,
    decreases m,
{
    if m > 1 {
        bound_days_before_month(y, m - 1);
    }
}

} // verus!
