//! The proleptic Gregorian calendar, UTC, from 1970-01-01 up to the end of
//! year 9999: day numbering, conversion between calendar dates and day
//! numbers, and conversion between timestamps and date-time components.
use vstd::prelude::*;

verus! {

/// Leap years of the Gregorian calendar.
pub open spec fn is_leap_year(y: int) -> bool {
    (y % 4 == 0 && y % 100 != 0) || y % 400 == 0
}

/// Number of days in month `m` (1 to 12) of year `y`.
pub open spec fn days_in_month(y: int, m: int) -> int {
    if m == 2 {
        if is_leap_year(y) {
            29
        } else {
            28
        }
    } else if m == 4 || m == 6 || m == 9 || m == 11 {
        30
    } else {
        31
    }
}

/// Number of days in year `y`.
pub open spec fn year_length(y: int) -> int {
    if is_leap_year(y) {
        366
    } else {
        365
    }
}

/// Days of year `y` that lie before the first day of month `m`.
pub open spec fn days_before_month(y: int, m: int) -> int
    decreases m,
{
    if m <= 1 {
        0
    } else {
        days_before_month(y, m - 1) + days_in_month(y, m - 1)
    }
}

/// Days between 1970-01-01 and the first day of year `y` (zero for 1970).
pub open spec fn days_before_year(y: int) -> int
    decreases y,
{
    if y <= 1970 {
        0
    } else {
        days_before_year(y - 1) + year_length(y - 1)
    }
}

/// `m`/`d` name an existing day of year `y`.
pub open spec fn proper_date(y: int, m: int, d: int) -> bool {
    1 <= m <= 12 && 1 <= d <= days_in_month(y, m)
}

/// A calendar date this library can place on its day line.
pub open spec fn valid_date(y: int, m: int, d: int) -> bool {
    1970 <= y <= 9999 && proper_date(y, m, d)
}

/// Day number (days since 1970-01-01) of the date `y`-`m`-`d`.
pub open spec fn days_from_civil(y: int, m: int, d: int) -> int {
    days_before_year(y) + days_before_month(y, m) + (d - 1)
}

/// The first day number no longer representable: the day 10000-01-01 would get.
pub open spec fn day_limit() -> int {
    days_before_year(10000)
}

/// The first timestamp no longer representable (the second after 9999-12-31T23:59:59).
pub open spec fn timestamp_limit() -> int {
    86400 * day_limit()
}

/// A timestamp this library accepts: non-negative and before year 10000.
pub open spec fn ts_in_range(t: int) -> bool {
    0 <= t < timestamp_limit()
}

/// The year a day number falls in, with the day's index within that year,
/// found by walking year by year from `y`.
pub open spec fn year_of_days(y: int, days: int) -> (int, int)
    decreases days,
{
    if days < year_length(y) {
        (y, days)
    } else {
        year_of_days(y + 1, days - year_length(y))
    }
}

/// The month a day-of-year falls in, with the day's index within that month,
/// found by walking month by month from `m`.
pub open spec fn month_of_days(y: int, m: int, days: int) -> (int, int)
    decreases 12 - m,
{
    if m >= 12 || days < days_in_month(y, m) {
        (m, days)
    } else {
        month_of_days(y, m + 1, days - days_in_month(y, m))
    }
}

/// The calendar date of a day number (days since 1970-01-01).
pub open spec fn date_of_days(days: int) -> (int, int, int) {
    let (y, rem) = year_of_days(1970, days);
    let (m, rem2) = month_of_days(y, 1, rem);
    (y, m, rem2 + 1)
}

/// A full year is exactly the days of its twelve months.
pub proof fn lemma_year_months(y: int)
    ensures
        days_before_month(y, 13) == year_length(y),
{
    let feb = days_in_month(y, 2);
    assert(days_before_month(y, 1) == 0);
    assert(days_before_month(y, 2) == 31);
    assert(days_before_month(y, 3) == 31 + feb);
    assert(days_before_month(y, 4) == 62 + feb);
    assert(days_before_month(y, 5) == 92 + feb);
    assert(days_before_month(y, 6) == 123 + feb);
    assert(days_before_month(y, 7) == 153 + feb);
    assert(days_before_month(y, 8) == 184 + feb);
    assert(days_before_month(y, 9) == 215 + feb);
    assert(days_before_month(y, 10) == 245 + feb);
    assert(days_before_month(y, 11) == 276 + feb);
    assert(days_before_month(y, 12) == 306 + feb);
    assert(days_before_month(y, 13) == 337 + feb);
}

/// `days_before_month` grows with the month.
pub proof fn lemma_days_before_month_mono(y: int, a: int, b: int)
    requires
        1 <= a <= b <= 13,
    ensures
        days_before_month(y, a) <= days_before_month(y, b),
    decreases b - a,
{
    if a < b {
        lemma_days_before_month_mono(y, a, b - 1);
    }
}

/// Bounds on the day count of a span of whole years.
pub proof fn lemma_days_before_year_bounds(y: int)
    requires
        1970 <= y,
    ensures
        365 * (y - 1970) <= days_before_year(y) <= 366 * (y - 1970),
    decreases y,
{
    if y > 1970 {
        lemma_days_before_year_bounds(y - 1);
    }
}

/// `days_before_year` grows by at least 365 per year.
pub proof fn lemma_days_before_year_mono(a: int, b: int)
    requires
        1970 <= a <= b,
    ensures
        days_before_year(a) + 365 * (b - a) <= days_before_year(b),
    decreases b - a,
{
    if a < b {
        lemma_days_before_year_mono(a, b - 1);
    }
}

/// `year_of_days` lands on the year whose span covers the given day number.
pub proof fn lemma_year_of_days(y0: int, days: int)
    requires
        1970 <= y0,
        0 <= days,
    ensures
        ({
            let (y, rem) = year_of_days(y0, days);
            &&& y0 <= y
            &&& 0 <= rem < year_length(y)
            &&& days_before_year(y) + rem == days_before_year(y0) + days
        }),
    decreases days,
{
    if days >= year_length(y0) {
        lemma_year_of_days(y0 + 1, days - year_length(y0));
    }
}

/// `month_of_days` lands on the month whose span covers the given day of year,
/// as long as the day of year fits in the months that are left.
pub proof fn lemma_month_of_days(y: int, m0: int, days: int)
    requires
        1 <= m0 <= 12,
        0 <= days,
        days_before_month(y, m0) + days < days_before_month(y, 13),
    ensures
        ({
            let (m, rem) = month_of_days(y, m0, days);
            &&& m0 <= m <= 12
            &&& 0 <= rem < days_in_month(y, m)
            &&& days_before_month(y, m) + rem == days_before_month(y, m0) + days
        }),
    decreases 12 - m0,
{
    if !(m0 >= 12 || days < days_in_month(y, m0)) {
        lemma_month_of_days(y, m0 + 1, days - days_in_month(y, m0));
    } else if m0 >= 12 && days >= days_in_month(y, m0) {
        assert(days_before_month(y, 13) == days_before_month(y, 12) + days_in_month(y, 12));
    }
}

/// `date_of_days` inverts `days_from_civil` on every representable day number.
pub proof fn lemma_date_of_days(days: int)
    requires
        0 <= days < day_limit(),
    ensures
        ({
            let (y, m, d) = date_of_days(days);
            &&& valid_date(y, m, d)
            &&& days_from_civil(y, m, d) == days
        }),
{
    let (y, rem) = year_of_days(1970, days);
    lemma_year_of_days(1970, days);
    if y >= 10000 {
        lemma_days_before_year_mono(10000, y);
        assert(days >= days_before_year(y));
    }
    lemma_year_months(y);
    lemma_month_of_days(y, 1, rem);
}

/// `days_from_civil` maps valid dates into the representable range.
pub proof fn lemma_days_from_civil_in_range(y: int, m: int, d: int)
    requires
        valid_date(y, m, d),
    ensures
        0 <= days_from_civil(y, m, d) < day_limit(),
{
    lemma_days_before_year_bounds(y);
    lemma_days_before_month_mono(y, 1, m);
    lemma_days_before_month_mono(y, m + 1, 13);
    lemma_year_months(y);
    assert(days_before_month(y, m + 1) == days_before_month(y, m) + days_in_month(y, m));
    assert(days_before_year(y + 1) == days_before_year(y) + year_length(y));
    lemma_days_before_year_mono(y + 1, 10000);
}

/// Number of days in month `m` of year `y`, executable form.
pub fn days_in_month_exec(y: u16, m: u8) -> (r: u8)
    requires
        1 <= m <= 12,
    ensures
        r == days_in_month(y as int, m as int),
{
    if m == 2 {
        if (y % 4 == 0 && y % 100 != 0) || y % 400 == 0 {
            29
        } else {
            28
        }
    } else if m == 4 || m == 6 || m == 9 || m == 11 {
        30
    } else {
        31
    }
}

/// Number of days in year `y`, executable form.
pub fn year_length_exec(y: u16) -> (r: u16)
    ensures
        r == year_length(y as int),
{
    if (y % 4 == 0 && y % 100 != 0) || y % 400 == 0 {
        366
    } else {
        365
    }
}

/// Day number of a valid calendar date.
pub fn days_from_civil_exec(y: u16, m: u8, d: u8) -> (r: u64)
    requires
        valid_date(y as int, m as int, d as int),
    ensures
        r == days_from_civil(y as int, m as int, d as int),
        0 <= r < day_limit(),
{
    let mut acc: u64 = 0;
    let mut i: u16 = 1970;
    while i < y
        invariant
            1970 <= i <= y <= 9999,
            acc == days_before_year(i as int),
            acc <= 366 * (i - 1970),
        decreases y - i,
    {
        proof {
            lemma_days_before_year_bounds(i as int);
        }
        acc = acc + year_length_exec(i) as u64;
        i = i + 1;
    }
    let mut j: u8 = 1;
    while j < m
        invariant
            valid_date(y as int, m as int, d as int),
            1 <= j <= m,
            acc == days_before_year(y as int) + days_before_month(y as int, j as int),
            acc <= 366 * 8030 + 31 * 12,
        decreases m - j,
    {
        proof {
            lemma_days_before_year_bounds(y as int);
            lemma_days_before_month_mono(y as int, 1, j as int);
            lemma_days_before_month_upper(y as int, j as int);
        }
        acc = acc + days_in_month_exec(y, j) as u64;
        j = j + 1;
    }
    proof {
        lemma_days_from_civil_in_range(y as int, m as int, d as int);
    }
    acc + (d - 1) as u64
}

/// Calendar date of a day number, or `None` past the representable range.
pub fn civil_from_days(days: u64) -> (r: Option<(u16, u8, u8)>)
    ensures
        match r {
            Some(ymd) => {
                &&& days < day_limit()
                &&& (ymd.0 as int, ymd.1 as int, ymd.2 as int) == date_of_days(days as int)
                &&& valid_date(ymd.0 as int, ymd.1 as int, ymd.2 as int)
                &&& days_from_civil(ymd.0 as int, ymd.1 as int, ymd.2 as int) == days
            },
            None => days >= day_limit(),
        },
{
    let mut y: u16 = 1970;
    let mut rem: u64 = days;
    let mut len: u16 = year_length_exec(y);
    while rem >= len as u64
        invariant
            1970 <= y <= 9999,
            len == year_length(y as int),
            days_before_year(y as int) + rem == days,
            year_of_days(1970, days as int) == year_of_days(y as int, rem as int),
        decreases rem,
    {
        if y == 9999 {
            proof {
                assert(day_limit() == days_before_year(9999) + year_length(9999));
            }
            return None;
        }
        rem = rem - len as u64;
        y = y + 1;
        len = year_length_exec(y);
    }
    proof {
        lemma_days_before_year_mono(y as int + 1, 10000);
        assert(days_before_year(y as int + 1) == days_before_year(y as int) + year_length(
            y as int,
        ));
        lemma_date_of_days(days as int);
    }
    let mut m: u8 = 1;
    let mut rem2: u64 = rem;
    let mut mlen: u8 = days_in_month_exec(y, m);
    while rem2 >= mlen as u64
        invariant
            1970 <= y <= 9999,
            1 <= m <= 12,
            mlen == days_in_month(y as int, m as int),
            days_before_month(y as int, m as int) + rem2 == rem,
            rem < year_length(y as int),
            month_of_days(y as int, 1, rem as int) == month_of_days(y as int, m as int, rem2 as int),
        decreases rem2,
    {
        proof {
            lemma_year_months(y as int);
            if m == 12 {
                assert(days_before_month(y as int, 13) == days_before_month(y as int, 12)
                    + days_in_month(y as int, 12));
            }
        }
        rem2 = rem2 - mlen as u64;
        m = m + 1;
        mlen = days_in_month_exec(y, m);
    }
    let d: u8 = (rem2 + 1) as u8;
    Some((y, m, d))
}

/// Crude upper bound on `days_before_month`.
pub proof fn lemma_days_before_month_upper(y: int, m: int)
    requires
        1 <= m <= 13,
    ensures
        days_before_month(y, m) <= 31 * (m - 1),
    decreases m,
{
    if m > 1 {
        lemma_days_before_month_upper(y, m - 1);
    }
}

} // verus!
