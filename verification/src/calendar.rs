//! Proleptic Gregorian calendar arithmetic over the years 0 through 9999.
//!
//! Dates are measured as signed day counts relative to the Unix epoch,
//! 1970-01-01, matching the physical encoding of a native day-precision
//! date column.

use vstd::prelude::*;

verus! {

/// A year is a leap year exactly when the Gregorian rule says so.
pub open spec fn is_leap_year(y: int) -> bool {
    (y % 4 == 0 && y % 100 != 0) || y % 400 == 0
}

pub open spec fn days_in_year(y: int) -> int {
    if is_leap_year(y) {
        366
    } else {
        365
    }
}

pub open spec fn days_in_month(y: int, m: int) -> int {
    if m == 2 {
        if is_leap_year(y) {
            29
        } else {
            28
        }
    } else if m == 4 || m == 6 || m == 9 || m == 11 {
        30
    } else {
        31
    }
}

/// Days from 0000-01-01 up to the first day of year `y`.
pub open spec fn days_before_year(y: int) -> int
    decreases y,
{
    if y <= 0 {
        0
    } else {
        days_before_year(y - 1) + days_in_year(y - 1)
    }
}

/// Days from `y`-01-01 up to the first day of month `m` of year `y`.
pub open spec fn days_before_month(y: int, m: int) -> int
    decreases m,
{
    if m <= 1 {
        0
    } else {
        days_before_month(y, m - 1) + days_in_month(y, m - 1)
    }
}

/// The calendar dates this library can represent in a native date column.
pub open spec fn valid_ymd(y: int, m: int, d: int) -> bool {
    &&& 0 <= y <= 9999
    &&& 1 <= m <= 12
    &&& 1 <= d <= days_in_month(y, m)
}

/// Signed day count of `y`-`m`-`d` relative to 1970-01-01.
pub open spec fn days_from_civil(y: int, m: int, d: int) -> int {
    days_before_year(y) + days_before_month(y, m) + (d - 1) - days_before_year(1970)
}

/// The day counts that correspond to a calendar date of this library.
pub open spec fn day_count_in_range(days: int) -> bool {
    days_from_civil(0, 1, 1) <= days <= days_from_civil(9999, 12, 31)
}

pub proof fn lemma_days_before_year_bounds(y: int)
    requires
        0 <= y,
    ensures
        365 * y <= days_before_year(y) <= 366 * y,
    decreases y,
{
    if y > 0 {
        lemma_days_before_year_bounds(y - 1);
    }
}

pub proof fn lemma_days_before_year_mono(y1: int, y2: int)
    requires
        0 <= y1 <= y2,
    ensures
        days_before_year(y1) <= days_before_year(y2),
    decreases y2,
{
    if y1 < y2 {
        lemma_days_before_year_mono(y1, y2 - 1);
    }
}

pub proof fn lemma_days_before_month_mono(y: int, m1: int, m2: int)
    requires
        1 <= m1 <= m2,
    ensures
        days_before_month(y, m1) <= days_before_month(y, m2),
    decreases m2,
{
    if m1 < m2 {
        lemma_days_before_month_mono(y, m1, m2 - 1);
    }
}

/// The months of a year sum to its length.
pub proof fn lemma_days_before_month_total(y: int)
    ensures
        days_before_month(y, 13) == days_in_year(y),
{
    reveal_with_fuel(days_before_month, 13);
}

pub proof fn lemma_days_before_month_bounds(y: int, m: int)
    requires
        1 <= m <= 13,
    ensures
        0 <= days_before_month(y, m) <= days_in_year(y),
    decreases m,
{
    lemma_days_before_month_total(y);
    lemma_days_before_month_mono(y, m, 13);
    if m > 1 {
        lemma_days_before_month_bounds(y, m - 1);
    }
}

/// A valid date's day count sits inside its own year.
pub proof fn lemma_day_count_within_year(y: int, m: int, d: int)
    requires
        valid_ymd(y, m, d),
    ensures
        days_before_year(y) <= days_from_civil(y, m, d) + days_before_year(1970)
            < days_before_year(y + 1),
{
    lemma_days_before_month_bounds(y, m);
    lemma_days_before_month_total(y);
    lemma_days_before_month_mono(y, m + 1, 13);
    assert(days_before_month(y, m + 1) == days_before_month(y, m) + days_in_month(y, m));
}

/// Two valid dates with the same day count are the same date.
pub proof fn lemma_days_from_civil_injective(y1: int, m1: int, d1: int, y2: int, m2: int, d2: int)
    requires
        valid_ymd(y1, m1, d1),
        valid_ymd(y2, m2, d2),
        days_from_civil(y1, m1, d1) == days_from_civil(y2, m2, d2),
    ensures
        y1 == y2 && m1 == m2 && d1 == d2,
{
    lemma_day_count_within_year(y1, m1, d1);
    lemma_day_count_within_year(y2, m2, d2);
    if y1 < y2 {
        lemma_days_before_year_mono(y1 + 1, y2);
    }
    if y2 < y1 {
        lemma_days_before_year_mono(y2 + 1, y1);
    }
    assert(y1 == y2);
    let doy = days_from_civil(y1, m1, d1) + days_before_year(1970) - days_before_year(y1);
    assert(days_before_month(y1, m1) <= doy < days_before_month(y1, m1) + days_in_month(y1, m1));
    assert(days_before_month(y1, m1 + 1) == days_before_month(y1, m1) + days_in_month(y1, m1));
    assert(days_before_month(y2, m2 + 1) == days_before_month(y2, m2) + days_in_month(y2, m2));
    if m1 < m2 {
        lemma_days_before_month_mono(y1, m1 + 1, m2);
    }
    if m2 < m1 {
        lemma_days_before_month_mono(y1, m2 + 1, m1);
    }
    assert(m1 == m2);
}

pub fn is_leap_year_exec(y: u32) -> (r: bool)
    ensures
        r == is_leap_year(y as int),
{
    (y % 4 == 0 && y % 100 != 0) || y % 400 == 0
}

pub fn days_in_year_exec(y: u32) -> (r: u32)
    ensures
        r == days_in_year(y as int),
{
    if is_leap_year_exec(y) {
        366
    } else {
        365
    }
}

pub fn days_in_month_exec(y: u32, m: u8) -> (r: u8)
    ensures
        r == days_in_month(y as int, m as int),
{
    if m == 2 {
        if is_leap_year_exec(y) {
            29
        } else {
            28
        }
    } else if m == 4 || m == 6 || m == 9 || m == 11 {
        30
    } else {
        31
    }
}

pub fn days_before_year_exec(y: u32) -> (r: u32)
    requires
        y <= 10000,
    ensures
        r == days_before_year(y as int),
{
    let mut acc: u32 = 0;
    let mut i: u32 = 0;
    while i < y
        invariant
            i <= y <= 10000,
            acc == days_before_year(i as int),
        decreases y - i,
    {
        proof {
            lemma_days_before_year_bounds(i as int);
        }
        acc = acc + days_in_year_exec(i);
        i = i + 1;
    }
    acc
}

pub fn days_before_month_exec(y: u32, m: u8) -> (r: u16)
    requires
        1 <= m <= 13,
    ensures
        r == days_before_month(y as int, m as int),
{
    let mut acc: u16 = 0;
    let mut i: u8 = 1;
    while i < m
        invariant
            1 <= i <= m <= 13,
            acc == days_before_month(y as int, i as int),
        decreases m - i,
    {
        proof {
            lemma_days_before_month_bounds(y as int, i as int);
        }
        acc = acc + days_in_month_exec(y, i) as u16;
        i = i + 1;
    }
    acc
}

/// Day count of a valid calendar date, relative to 1970-01-01.
pub fn days_from_civil_exec(y: u32, m: u8, d: u8) -> (r: i32)
    requires
        valid_ymd(y as int, m as int, d as int),
    ensures
        r == days_from_civil(y as int, m as int, d as int),
        day_count_in_range(r as int),
{
    let by = days_before_year_exec(y);
    let bm = days_before_month_exec(y, m);
    let epoch = days_before_year_exec(1970);
    proof {
        lemma_days_before_year_bounds(y as int);
        lemma_days_before_year_bounds(1970);
        lemma_days_before_month_bounds(y as int, m as int);
        lemma_day_count_within_year(y as int, m as int, d as int);
        lemma_day_count_within_year(0, 1, 1);
        lemma_days_before_year_mono(y as int + 1, 10000);
        lemma_days_before_year_bounds(10000);
        lemma_days_before_month_total(9999);
        assert(days_before_month(9999, 13) == days_before_month(9999, 12) + days_in_month(
            9999,
            12,
        ));
        assert(days_before_year(10000) == days_before_year(9999) + days_in_year(9999));
    }
    by as i32 + bm as i32 + (d - 1) as i32 - epoch as i32
}

/// Inverse of `days_from_civil_exec`: the unique calendar date with the
/// given day count.
pub fn civil_from_days(days: i32) -> (r: (u32, u8, u8))
    requires
        day_count_in_range(days as int),
    ensures
        valid_ymd(r.0 as int, r.1 as int, r.2 as int),
        days_from_civil(r.0 as int, r.1 as int, r.2 as int) == days,
{
    let epoch = days_before_year_exec(1970);
    proof {
        lemma_days_before_year_bounds(1970);
        lemma_day_count_within_year(0, 1, 1);
        lemma_day_count_within_year(9999, 12, 31);
        lemma_days_before_year_bounds(10000);
    }
    let n: u32 = ((days as i64) + (epoch as i64)) as u32;
    proof {
        assert(n as int == days + days_before_year(1970));
        assert(n < days_before_year(10000));
    }
    let mut y: u32 = 0;
    let mut acc: u32 = 0;
    loop
        invariant
            y <= 9999,
            acc == days_before_year(y as int),
            acc <= n,
            n < days_before_year(10000),
        ensures
            y <= 9999,
            acc == days_before_year(y as int),
            acc <= n,
            n < acc + days_in_year(y as int),
        decreases 9999 - y,
    {
        if y >= 9999 {
            proof {
                assert(days_before_year(10000) == days_before_year(9999) + days_in_year(9999));
            }
            break ;
        }
        proof {
            lemma_days_before_year_bounds(y as int);
        }
        let len = days_in_year_exec(y);
        if acc + len <= n {
            acc = acc + len;
            y = y + 1;
        } else {
            break ;
        }
    }
    let doy: u32 = n - acc;
    let mut m: u8 = 1;
    let mut macc: u16 = 0;
    loop
        invariant
            1 <= m <= 12,
            macc == days_before_month(y as int, m as int),
            macc <= doy,
            doy < days_in_year(y as int),
        ensures
            1 <= m <= 12,
            macc == days_before_month(y as int, m as int),
            macc <= doy,
            doy < macc + days_in_month(y as int, m as int),
        decreases 12 - m,
    {
        if m >= 12 {
            proof {
                lemma_days_before_month_total(y as int);
                assert(days_before_month(y as int, 13) == days_before_month(y as int, 12)
                    + days_in_month(y as int, 12));
            }
            break ;
        }
        proof {
            lemma_days_before_month_bounds(y as int, m as int);
        }
        let len = days_in_month_exec(y, m);
        if macc as u32 + len as u32 <= doy {
            macc = macc + len as u16;
            m = m + 1;
        } else {
            break ;
        }
    }
    let d: u8 = (doy - macc as u32 + 1) as u8;
    (y, m, d)
}

} // verus!
