//! Proleptic Gregorian calendar arithmetic: leap years, month lengths,
//! day-of-year conversions, and the day count since 1970-01-01 that anchors
//! instant-preservation contracts.

use vstd::prelude::*;

verus! {

/// Whether `y` is a leap year in the proleptic Gregorian calendar.
pub open spec fn spec_is_leap_year(y: int) -> bool {
    (y % 4 == 0 && y % 100 != 0) || y % 400 == 0
}

/// 366 in leap years, 365 otherwise.
pub open spec fn spec_days_in_year(y: int) -> int {
    if spec_is_leap_year(y) {
        366
    } else {
        365
    }
}

/// The number of days in month `m` (1 to 12) of year `y`.
pub open spec fn spec_days_in_month(y: int, m: int) -> int {
    if m == 2 {
        if spec_is_leap_year(y) {
            29
        } else {
            28
        }
    } else if m == 4 || m == 6 || m == 9 || m == 11 {
        30
    } else {
        31
    }
}

/// The number of days of year `y` that pass before month `m` begins.
pub open spec fn spec_days_before_month(y: int, m: int) -> int
    decreases m,
{
    if m <= 1 {
        0
    } else {
        spec_days_before_month(y, m - 1) + spec_days_in_month(y, m - 1)
    }
}

/// Whether `(y, m, d)` is a real calendar date.
pub open spec fn spec_valid_md(y: int, m: int, d: int) -> bool {
    1 <= m <= 12 && 1 <= d <= spec_days_in_month(y, m)
}

/// The 1-based day-of-year of the date `(y, m, d)`.
pub open spec fn spec_day_of_year(y: int, m: int, d: int) -> int {
    spec_days_before_month(y, m) + d
}

/// Walks months from `m` upward until `doy` days fit into one of them;
/// yields the `(month, day)` pair the ordinal day `doy` lands on.
pub open spec fn spec_month_day_from(y: int, doy: int, m: int) -> (int, int)
    decreases 12 - m,
{
    if m >= 12 || doy <= spec_days_in_month(y, m) {
        (m, doy)
    } else {
        spec_month_day_from(y, doy - spec_days_in_month(y, m), m + 1)
    }
}

/// The `(month, day)` pair of the ordinal day `doy` of year `y`.
pub open spec fn spec_month_day_of_doy(y: int, doy: int) -> (int, int) {
    spec_month_day_from(y, doy, 1)
}

/// Days between 1970-01-01 and the date `(y, m, d)`, negative for earlier
/// dates (the standard era-based civil-from-days correspondence).
pub open spec fn spec_days_from_civil(y: int, m: int, d: int) -> int {
    let ys = if m <= 2 {
        y - 1
    } else {
        y
    };
    let era = ys / 400;
    let yoe = ys % 400;
    let mp = if m > 2 {
        m - 3
    } else {
        m + 9
    };
    let doy = (153 * mp + 2) / 5 + d - 1;
    let doe = yoe * 365 + yoe / 4 - yoe / 100 + doy;
    era * 146097 + doe - 719468
}

/// Seconds between the UTC epoch and the instant whose local civil reading
/// is `(y, m, d, h, mi, s)` in a zone `off` seconds east of UTC.
pub open spec fn spec_epoch_of(y: int, m: int, d: int, h: int, mi: int, s: int, off: int) -> int {
    spec_days_from_civil(y, m, d) * 86400 + h * 3600 + mi * 60 + s - off
}

/// Returns whether `y` is a leap year.
pub fn is_leap_year(y: i32) -> (r: bool)
    ensures
        r == spec_is_leap_year(y as int),
{
    (y % 4 == 0 && y % 100 != 0) || y % 400 == 0
}

/// Returns the number of days in year `y`: 365, or 366 in a leap year.
pub fn days_in_year(y: i32) -> (r: u32)
    ensures
        r == spec_days_in_year(y as int),
{
    if is_leap_year(y) {
        366
    } else {
        365
    }
}

/// Returns the number of days in month `m` of year `y`.
pub fn days_in_month(y: i32, m: u32) -> (r: u32)
    requires
        1 <= m <= 12,
    ensures
        r == spec_days_in_month(y as int, m as int),
        28 <= r <= 31,
{
    if m == 2 {
        if is_leap_year(y) {
            29
        } else {
            28
        }
    } else if m == 4 || m == 6 || m == 9 || m == 11 {
        30
    } else {
        31
    }
}

/// Returns the 1-based day-of-year of the valid date `(y, m, d)`.
pub fn day_of_year(y: i32, m: u32, d: u32) -> (r: u32)
    requires
        spec_valid_md(y as int, m as int, d as int),
    ensures
        r == spec_day_of_year(y as int, m as int, d as int),
        1 <= r <= spec_days_in_year(y as int),
{
    proof {
        lemma_day_of_year_in_range(y as int, m as int, d as int);
        lemma_days_before_month_bounds(y as int, m as int);
    }
    let mut acc: u32 = 0;
    let mut mm: u32 = 1;
    while mm < m
        invariant
            1 <= mm <= m <= 12,
            acc == spec_days_before_month(y as int, mm as int),
            acc <= 341,
        decreases m - mm,
    {
        proof {
            lemma_days_before_month_bounds(y as int, (mm + 1) as int);
        }
        acc = acc + days_in_month(y, mm);
        mm = mm + 1;
    }
    acc + d
}

/// Returns the `(month, day)` pair that the ordinal day `doy` of year `y`
/// falls on.
pub fn month_day_of_doy(y: i32, doy: u32) -> (r: (u32, u32))
    requires
        1 <= doy <= spec_days_in_year(y as int),
    ensures
        (r.0 as int, r.1 as int) == spec_month_day_of_doy(y as int, doy as int),
        spec_valid_md(y as int, r.0 as int, r.1 as int),
        spec_day_of_year(y as int, r.0 as int, r.1 as int) == doy,
{
    proof {
        lemma_days_before_month_total(y as int);
        lemma_month_day_from_props(y as int, doy as int, 1);
    }
    let mut m: u32 = 1;
    let mut rest: u32 = doy;
    while m < 12 && rest > days_in_month(y, m)
        invariant
            1 <= m <= 12,
            1 <= rest <= 366,
            spec_month_day_from(y as int, rest as int, m as int) == spec_month_day_of_doy(
                y as int,
                doy as int,
            ),
        decreases 12 - m,
    {
        rest = rest - days_in_month(y, m);
        m = m + 1;
    }
    (m, rest)
}

/// The days that pass before a month never number fewer than zero nor more
/// than 31 per preceding month.
proof fn lemma_days_before_month_bounds(y: int, m: int)
    ensures
        0 <= spec_days_before_month(y, m),
        m >= 1 ==> spec_days_before_month(y, m) <= 31 * (m - 1),
    decreases m,
{
    if m > 1 {
        lemma_days_before_month_bounds(y, m - 1);
        assert(spec_days_in_month(y, m - 1) <= 31);
    }
}

/// The days before an hypothetical 13th month are exactly the length of the
/// year: the twelve month lengths sum to 365, or 366 in a leap year.
proof fn lemma_days_before_month_total(y: int)
    ensures
        spec_days_before_month(y, 13) == spec_days_in_year(y),
{
    assert(spec_days_before_month(y, 1) == 0);
    assert(spec_days_before_month(y, 2) == 31);
    assert(spec_days_before_month(y, 3) == 31 + spec_days_in_month(y, 2));
    assert(spec_days_before_month(y, 4) == spec_days_before_month(y, 3) + 31);
    assert(spec_days_before_month(y, 5) == spec_days_before_month(y, 4) + 30);
    assert(spec_days_before_month(y, 6) == spec_days_before_month(y, 5) + 31);
    assert(spec_days_before_month(y, 7) == spec_days_before_month(y, 6) + 30);
    assert(spec_days_before_month(y, 8) == spec_days_before_month(y, 7) + 31);
    assert(spec_days_before_month(y, 9) == spec_days_before_month(y, 8) + 31);
    assert(spec_days_before_month(y, 10) == spec_days_before_month(y, 9) + 30);
    assert(spec_days_before_month(y, 11) == spec_days_before_month(y, 10) + 31);
    assert(spec_days_before_month(y, 12) == spec_days_before_month(y, 11) + 30);
    assert(spec_days_before_month(y, 13) == spec_days_before_month(y, 12) + 31);
}

/// The day-of-year of a valid date lies between 1 and the year's length.
pub proof fn lemma_day_of_year_in_range(y: int, m: int, d: int)
    requires
        spec_valid_md(y, m, d),
    ensures
        1 <= spec_day_of_year(y, m, d) <= spec_days_in_year(y),
{
    lemma_days_before_month_bounds(y, m);
    lemma_days_before_month_total(y);
    lemma_days_before_mono(y, m + 1, 13);
    assert(spec_days_before_month(y, m + 1) == spec_days_before_month(y, m)
        + spec_days_in_month(y, m));
}

/// Later months have at least as many days of the year before them.
proof fn lemma_days_before_mono(y: int, m1: int, m2: int)
    requires
        m1 <= m2,
    ensures
        spec_days_before_month(y, m1) <= spec_days_before_month(y, m2),
    decreases m2 - m1,
{
    if m1 < m2 {
        lemma_days_before_mono(y, m1, m2 - 1);
        if m2 > 1 {
            assert(spec_days_in_month(y, m2 - 1) >= 28);
        }
    }
}

/// The month walk starting at `m` lands on a valid `(month, day)` pair
/// whose day-of-year is the ordinal day it was given, as long as that day
/// fits in the rest of the year.
proof fn lemma_month_day_from_props(y: int, doy: int, m: int)
    requires
        1 <= m <= 12,
        1 <= doy,
        doy + spec_days_before_month(y, m) <= spec_days_before_month(y, 13),
    ensures
        ({
            let (rm, rd) = spec_month_day_from(y, doy, m);
            &&& m <= rm <= 12
            &&& 1 <= rd <= spec_days_in_month(y, rm)
            &&& spec_days_before_month(y, rm) + rd == doy + spec_days_before_month(y, m)
        }),
    decreases 12 - m,
{
    if m >= 12 || doy <= spec_days_in_month(y, m) {
        if m >= 12 {
            assert(spec_days_before_month(y, 13) == spec_days_before_month(y, 12)
                + spec_days_in_month(y, 12));
        }
    } else {
        assert(spec_days_before_month(y, m + 1) == spec_days_before_month(y, m)
            + spec_days_in_month(y, m));
        lemma_month_day_from_props(y, doy - spec_days_in_month(y, m), m + 1);
    }
}

/// Converting a valid date to its day-of-year and back yields the same
/// `(month, day)` pair.
pub proof fn lemma_doy_round_trip(y: int, m: int, d: int)
    requires
        spec_valid_md(y, m, d),
    ensures
        spec_month_day_of_doy(y, spec_day_of_year(y, m, d)) == (m, d),
{
    lemma_month_day_from_shift(y, m, d, 1);
}

/// Starting the month walk at any month at or before the date's own month
/// finds the date again.
proof fn lemma_month_day_from_shift(y: int, m: int, d: int, m0: int)
    requires
        spec_valid_md(y, m, d),
        1 <= m0 <= m,
    ensures
        spec_month_day_from(
            y,
            spec_days_before_month(y, m) - spec_days_before_month(y, m0) + d,
            m0,
        ) == (m, d),
    decreases m - m0,
{
    let doy = spec_days_before_month(y, m) - spec_days_before_month(y, m0) + d;
    if m0 == m {
        assert(spec_month_day_from(y, d, m0) == (m, d));
    } else {
        assert(spec_days_before_month(y, m0 + 1) == spec_days_before_month(y, m0)
            + spec_days_in_month(y, m0));
        lemma_days_before_mono(y, m0 + 1, m);
        assert(doy > spec_days_in_month(y, m0));
        lemma_month_day_from_shift(y, m, d, m0 + 1);
    }
}

} // verus!
