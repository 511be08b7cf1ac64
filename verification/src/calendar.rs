//! Dates of the Gregorian calendar as day numbers, and timestamps as text.

use vstd::arithmetic::div_mod::*;
use vstd::prelude::*;

use crate::text;

verus! {

/// Leap years of the Gregorian calendar.
pub open spec fn is_leap(year: int) -> bool {
    year % 4 == 0 && (year % 100 != 0 || year % 400 == 0)
}

/// The number of days in a month.
pub open spec fn days_in_month(year: int, month: int) -> int {
    if month == 2 {
        if is_leap(year) {
            29
        } else {
            28
        }
    } else if month == 4 || month == 6 || month == 9 || month == 11 {
        30
    } else {
        31
    }
}

/// A date of the calendar.
pub open spec fn is_date(year: int, month: int, day: int) -> bool {
    1 <= month <= 12 && 1 <= day <= days_in_month(year, month)
}

/// The number of a day, counted from 1970-01-01. Years begin in March here, so that the leap
/// day comes last; months past December run on at the same pace.
pub open spec fn day_number(year: int, month: int, day: int) -> int {
    let y = if month <= 2 {
        year - 1
    } else {
        year
    };
    let m = if month <= 2 {
        month + 9
    } else {
        month - 3
    };
    365 * y + y / 4 - y / 100 + y / 400 + (153 * m + 2) / 5 + day - 1 - 719_468
}

/// The first day of the Unix epoch has number 0.
pub proof fn lemma_epoch()
    ensures
        day_number(1970, 1, 1) == 0,
{
}

/// A month has as many day numbers as days: the first of the next month follows the last of
/// this one.
pub proof fn lemma_months_follow(year: int, month: int)
    requires
        1 <= month <= 12,
    ensures
        month < 12 ==> day_number(year, month + 1, 1) == day_number(year, month, 1)
            + days_in_month(year, month),
        month == 12 ==> day_number(year + 1, 1, 1) == day_number(year, month, 1) + days_in_month(
            year,
            month,
        ),
{
    lemma_leap_years_before(year);
    if month == 1 || month == 2 {
    } else if month == 3 || month == 4 {
    } else if month == 5 || month == 6 {
    } else if month == 7 || month == 8 {
    } else if month == 9 || month == 10 {
    } else {
    }
}

spec fn leap_years_before(y: int) -> int {
    y / 4 - y / 100 + y / 400
}

proof fn lemma_quotient_step(n: int, k: int)
    requires
        k > 0,
    ensures
        n / k == (n - 1) / k + (if n % k == 0 {
            1int
        } else {
            0
        }),
{
    let q = n / k;
    let r = n % k;
    lemma_fundamental_div_mod(n, k);
    assert(k * q == q * k) by (nonlinear_arith);
    if r == 0 {
        assert(n - 1 == (q - 1) * k + (k - 1)) by (nonlinear_arith)
            requires
                n == q * k,
        ;
        lemma_fundamental_div_mod_converse(n - 1, k, q - 1, k - 1);
    } else {
        lemma_fundamental_div_mod_converse(n - 1, k, q, r - 1);
    }
}

proof fn lemma_leap_years_before(year: int)
    ensures
        leap_years_before(year) == leap_years_before(year - 1) + (if is_leap(year) {
            1int
        } else {
            0
        }),
{
    lemma_quotient_step(year, 4);
    lemma_quotient_step(year, 100);
    lemma_quotient_step(year, 400);
    lemma_multiples(year);
}

proof fn lemma_multiples(year: int)
    ensures
        year % 400 == 0 ==> year % 100 == 0,
        year % 100 == 0 ==> year % 4 == 0,
{
    lemma_fundamental_div_mod(year, 400);
    lemma_fundamental_div_mod(year, 100);
    if year % 400 == 0 {
        lemma_fundamental_div_mod_converse(year, 100, 4 * (year / 400), 0);
    }
    if year % 100 == 0 {
        lemma_fundamental_div_mod_converse(year, 4, 25 * (year / 100), 0);
    }
}

proof fn lemma_leap_years_before_era(yoe: int, era: int)
    requires
        0 <= yoe < 400,
    ensures
        leap_years_before(yoe + 400 * era) == yoe / 4 - yoe / 100 + 97 * era,
{
    let y = yoe + 400 * era;
    lemma_fundamental_div_mod(yoe, 4);
    lemma_fundamental_div_mod(yoe, 100);
    lemma_fundamental_div_mod_converse(y, 4, yoe / 4 + 100 * era, yoe % 4);
    lemma_fundamental_div_mod_converse(y, 100, yoe / 100 + 4 * era, yoe % 100);
    lemma_fundamental_div_mod_converse(y, 400, era, yoe);
}

proof fn lemma_leap_in_era(year: int, era: int)
    ensures
        is_leap(year + 400 * era) == is_leap(year),
{
    let y = year + 400 * era;
    lemma_fundamental_div_mod(year, 4);
    lemma_fundamental_div_mod(year, 100);
    lemma_fundamental_div_mod(year, 400);
    lemma_fundamental_div_mod_converse(y, 4, year / 4 + 100 * era, year % 4);
    lemma_fundamental_div_mod_converse(y, 100, year / 100 + 4 * era, year % 100);
    lemma_fundamental_div_mod_converse(y, 400, year / 400 + era, year % 400);
}

spec fn year_start(yoe: u32) -> u32 {
    (365 * yoe + yoe / 4 - yoe / 100) as u32
}

/// The year within a span of 400 years that holds day `doe`.
spec fn year_of_era(doe: u32) -> u32 {
    ((doe - doe / 1460 + doe / 36_524 - doe / 146_096) / 365) as u32
}

proof fn lemma_year_of_era(doe: u32)
    requires
        doe < 146_097,
    ensures
        year_of_era(doe) < 400,
        year_start(year_of_era(doe)) <= doe,
        doe - year_start(year_of_era(doe)) <= 365,
        doe - year_start(year_of_era(doe)) == 365 ==> is_leap(year_of_era(doe) + 1),
{
    assert(year_of_era(doe) < 400 && year_start(year_of_era(doe)) <= doe && doe - year_start(
        year_of_era(doe),
    ) <= 365 && (doe - year_start(year_of_era(doe)) == 365 ==> ((year_of_era(doe) + 1) % 4 == 0
        && ((year_of_era(doe) + 1) % 100 != 0 || (year_of_era(doe) + 1) % 400 == 0))))
        by (bit_vector)
        requires
            doe < 146_097u32,
    ;
}

proof fn lemma_month_of_year(doy: u32)
    requires
        doy <= 365,
    ensures
        (5 * doy + 2) / 153 <= 11,
        (153 * ((5 * doy + 2) / 153) + 2) / 5 <= doy,
        ({
            let mp = (5 * doy + 2) / 153;
            let day = doy - (153 * mp + 2) / 5 + 1;
            if mp == 11 {
                day <= 29 && (day == 29 ==> doy == 365)
            } else if mp == 1 || mp == 3 || mp == 6 || mp == 8 {
                day <= 30
            } else {
                day <= 31
            }
        }),
{
}

/// Day `doy` of year `yoe` of a span of 400 years, both counted from March.
proof fn lemma_date_in_era(era: int, yoe: int, doy: int)
    requires
        0 <= yoe < 400,
        0 <= doy <= 365,
        doy == 365 ==> is_leap(yoe + 1),
    ensures
        ({
            let mp = (5 * doy + 2) / 153;
            let day = doy - (153 * mp + 2) / 5 + 1;
            let month = if mp < 10 {
                mp + 3
            } else {
                mp - 9
            };
            let start = yoe + era * 400;
            let year = if month <= 2 {
                start + 1
            } else {
                start
            };
            &&& is_date(year, month, day)
            &&& day_number(year, month, day) == era * 146_097 + 365 * yoe + yoe / 4 - yoe / 100
                + doy - 719_468
        }),
{
    lemma_month_of_year(doy as u32);
    lemma_leap_years_before_era(yoe, era);
    lemma_leap_in_era(yoe + 1, era);
    let start = yoe + era * 400;
    assert(start / 4 - start / 100 + start / 400 == yoe / 4 - yoe / 100 + 97 * era);
}

/// Every day number is that of a date.
pub proof fn lemma_some_date(days: int) -> (date: (int, int, int))
    ensures
        is_date(date.0, date.1, date.2),
        day_number(date.0, date.1, date.2) == days,
{
    let z = days + 719_468;
    let era = z / 146_097;
    let doe = z % 146_097;
    lemma_fundamental_div_mod(z, 146_097);
    let yoe = year_of_era(doe as u32) as int;
    lemma_year_of_era(doe as u32);
    let doy = doe - year_start(yoe as u32);
    lemma_date_in_era(era, yoe, doy);
    let mp = (5 * doy + 2) / 153;
    let day = doy - (153 * mp + 2) / 5 + 1;
    let month = if mp < 10 {
        mp + 3
    } else {
        mp - 9
    };
    let start = yoe + era * 400;
    let year = if month <= 2 {
        start + 1
    } else {
        start
    };
    (year, month, day)
}

/// The date of a day number.
pub fn civil_from_days(days: i64) -> (date: (i64, u32, u32))
    requires
        days <= i64::MAX - 719_468,
    ensures
        is_date(date.0 as int, date.1 as int, date.2 as int),
        day_number(date.0 as int, date.1 as int, date.2 as int) == days,
{
    let z: i64 = days + 719_468;
    let era: i64 = if z >= 0 {
        z / 146_097
    } else {
        -(-(z + 1) / 146_097) - 1
    };
    let doe: u32 = (z - era * 146_097) as u32;
    proof {
        lemma_year_of_era(doe);
    }
    let yoe: u32 = (doe - doe / 1460 + doe / 36_524 - doe / 146_096) / 365;
    assert(yoe == year_of_era(doe));
    let doy: u32 = doe - (365 * yoe + yoe / 4 - yoe / 100);
    proof {
        lemma_month_of_year(doy);
    }
    let mp: u32 = (5 * doy + 2) / 153;
    let day: u32 = doy - (153 * mp + 2) / 5 + 1;
    let month: u32 = if mp < 10 {
        mp + 3
    } else {
        mp - 9
    };
    let start: i64 = yoe as i64 + era * 400;
    let year: i64 = if month <= 2 {
        start + 1
    } else {
        start
    };
    proof {
        lemma_date_in_era(era as int, yoe as int, doy as int);
    }
    (year, month, day)
}

/// The first day of the month with running number `k`, which counts from January of year 0.
spec fn month_first(k: int) -> int {
    day_number(k / 12, k % 12 + 1, 1)
}

proof fn lemma_month_first_grows(j: int, k: int)
    requires
        j < k,
    ensures
        month_first(j) + days_in_month(j / 12, j % 12 + 1) <= month_first(k),
    decreases k - j,
{
    lemma_months_follow(j / 12, j % 12 + 1);
    if j % 12 == 11 {
        assert((j + 1) / 12 == j / 12 + 1 && (j + 1) % 12 == 0);
    } else {
        assert((j + 1) / 12 == j / 12 && (j + 1) % 12 == j % 12 + 1);
    }
    if j + 1 < k {
        lemma_month_first_grows(j + 1, k);
    }
}

/// Two dates with the same number are the same date.
pub proof fn lemma_dates_differ(y1: int, m1: int, d1: int, y2: int, m2: int, d2: int)
    requires
        is_date(y1, m1, d1),
        is_date(y2, m2, d2),
        day_number(y1, m1, d1) == day_number(y2, m2, d2),
    ensures
        y1 == y2 && m1 == m2 && d1 == d2,
{
    let j = 12 * y1 + m1 - 1;
    let k = 12 * y2 + m2 - 1;
    assert(j / 12 == y1 && j % 12 == m1 - 1);
    assert(k / 12 == y2 && k % 12 == m2 - 1);
    assert(day_number(y1, m1, d1) == month_first(j) + d1 - 1);
    assert(day_number(y2, m2, d2) == month_first(k) + d2 - 1);
    if j < k {
        lemma_month_first_grows(j, k);
    } else if k < j {
        lemma_month_first_grows(k, j);
    }
}

/// The first of two dates lies before the other.
pub open spec fn is_before(y1: int, m1: int, d1: int, y2: int, m2: int, d2: int) -> bool {
    y1 < y2 || (y1 == y2 && (m1 < m2 || (m1 == m2 && d1 < d2)))
}

/// A date that lies before another has the lower number.
pub proof fn lemma_dates_in_order(y1: int, m1: int, d1: int, y2: int, m2: int, d2: int)
    requires
        is_date(y1, m1, d1),
        is_date(y2, m2, d2),
        is_before(y1, m1, d1, y2, m2, d2),
    ensures
        day_number(y1, m1, d1) < day_number(y2, m2, d2),
{
    let j = 12 * y1 + m1 - 1;
    let k = 12 * y2 + m2 - 1;
    assert(j / 12 == y1 && j % 12 == m1 - 1);
    assert(k / 12 == y2 && k % 12 == m2 - 1);
    assert(day_number(y1, m1, d1) == month_first(j) + d1 - 1);
    assert(day_number(y2, m2, d2) == month_first(k) + d2 - 1);
    if j < k {
        lemma_month_first_grows(j, k);
    }
}

/// A date lies before a year exactly if its number lies below that of the year's first day.
pub proof fn lemma_years_in_order(year: int, month: int, day: int, bound: int)
    requires
        is_date(year, month, day),
    ensures
        year < bound <==> day_number(year, month, day) < day_number(bound, 1, 1),
{
    let k = 12 * year + month - 1;
    let j = 12 * bound;
    assert(k / 12 == year && k % 12 == month - 1);
    assert(j / 12 == bound && j % 12 == 0);
    assert(day_number(year, month, day) == month_first(k) + day - 1);
    if year < bound {
        lemma_month_first_grows(k, j);
    } else if j < k {
        lemma_month_first_grows(j, k);
    }
}

/// How far day numbers reach for years of up to four digits.
pub proof fn lemma_day_number_range(year: int, month: int, day: int)
    requires
        -999 <= year <= 9999,
        0 <= month <= u32::MAX,
        0 <= day <= u32::MAX,
    ensures
        -1_200_000 <= day_number(year, month, day) <= 150_000_000_000,
{
}

/// The number of the day of a date. The month and the day need not be ones of the calendar.
pub fn days_from_civil(year: i64, month: u32, day: u32) -> (days: i64)
    requires
        -25_000_000_000_000_000 <= year <= 25_000_000_000_000_000,
    ensures
        days == day_number(year as int, month as int, day as int),
{
    let y: i64 = if month <= 2 {
        year - 1
    } else {
        year
    };
    let era: i64 = if y >= 0 {
        y / 400
    } else {
        -(-(y + 1) / 400) - 1
    };
    let yoe: i64 = y - era * 400;
    let mp: i64 = if month > 2 {
        month as i64 - 3
    } else {
        month as i64 + 9
    };
    let doy: i64 = (153 * mp + 2) / 5 + day as i64 - 1;
    let doe: i64 = yoe * 365 + yoe / 4 - yoe / 100 + doy;
    proof {
        lemma_leap_years_before_era(yoe as int, era as int);
        assert(yoe + 400 * era == y);
    }
    era * 146_097 + doe - 719_468
}

} // verus!
