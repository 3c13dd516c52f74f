//! Real-time clock: converts a timestamp (seconds since 1970, read from the
//! clock device) into a calendar time in UTC+8.

use vstd::prelude::*;

verus! {

/// The year that timestamps count from.
pub const START_YEAR: usize = 1970;
/// Nanoseconds per second, the unit the clock device counts in.
pub const NANOS_PER_SECOND: usize = 1_000_000_000;

/// A calendar time, precise to the second.
#[derive(Debug, Clone, Copy, PartialEq, Eq)]
pub struct Time {
    pub year: usize,
    pub month: usize,
    pub day: usize,
    pub hour: usize,
    pub minute: usize,
    pub second: usize,
}

/// Leap years as the year count of the conversion sees them: divisible by 4
/// but not by 100.
pub open spec fn year_is_leap(year: int) -> bool {
    year % 100 != 0 && year % 4 == 0
}

/// Leap years as the month count sees them (the Gregorian rule).
pub open spec fn month_is_leap(year: int) -> bool {
    (year % 100 != 0 && year % 4 == 0) || (year % 100 == 0 && year % 400 == 0)
}

/// Days that the year count takes away for `year`.
pub open spec fn days_of_year(year: int) -> int {
    if year_is_leap(year) { 366 } else { 365 }
}

/// Days that the month count takes away for `month` of `year`.
pub open spec fn days_of_month(month: int, year: int) -> int {
    if month <= 7 {
        if month == 2 {
            if month_is_leap(year) { 29 } else { 28 }
        } else if month % 2 == 0 {
            30
        } else {
            31
        }
    } else {
        if month % 2 == 0 { 31 } else { 30 }
    }
}

/// Whole years are taken from `days` while more than 366 days are left:
/// the year reached and the days left over.
pub open spec fn count_years(year: int, days: int) -> (int, int)
    decreases days,
{
    if days > 366 && days_of_year(year) > 0 {
        count_years(year + 1, days - days_of_year(year))
    } else {
        (year, days)
    }
}

/// After the year count, 365 left-over days in a year that is neither
/// divisible by 4 nor by 100 roll over into the next year.
pub open spec fn settle_year(year: int, days: int) -> (int, int) {
    if days == 365 && year % 100 != 0 && year % 4 != 0 {
        (year + 1, days - 365)
    } else {
        (year, days)
    }
}

/// Whole months are taken from `days` while more than 31 days are left:
/// the month reached and the days left over.
pub open spec fn count_months(month: int, year: int, days: int) -> (int, int)
    decreases days,
{
    if days > 31 && days_of_month(month, year) > 0 {
        count_months(month + 1, year, days - days_of_month(month, year))
    } else {
        (month, days)
    }
}

/// The calendar time of timestamp `tm` (seconds), in UTC+8.
pub open spec fn time_of_timestamp(tm: int) -> Time {
    let total_day = (tm / 3600 + 8) / 24;
    let (y0, d0) = count_years(START_YEAR as int, total_day);
    let (year, d1) = settle_year(y0, d0);
    let (month, day) = count_months(1, year, d1);
    Time {
        year: year as usize,
        month: month as usize,
        day: day as usize,
        hour: ((tm / 3600 + 8) % 24) as usize,
        minute: (tm / 60 % 60) as usize,
        second: (tm % 60) as usize,
    }
}

proof fn lemma_count_years_bounds(year: int, days: int)
    requires
        days >= 0,
    ensures
        count_years(year, days).0 <= year + days,
        count_years(year, days).0 >= year,
        0 <= count_years(year, days).1 <= days,
    decreases days,
{
    if days > 366 && days_of_year(year) > 0 {
        lemma_count_years_bounds(year + 1, days - days_of_year(year));
    }
}

proof fn lemma_count_months_bounds(month: int, year: int, days: int)
    requires
        days >= 0,
    ensures
        count_months(month, year, days).0 <= month + days,
        count_months(month, year, days).0 >= month,
        0 <= count_months(month, year, days).1 <= days,
    decreases days,
{
    if days > 31 && days_of_month(month, year) > 0 {
        lemma_count_months_bounds(month + 1, year, days - days_of_month(month, year));
    }
}

/// Days from 1970-01-01 to the start of `year` when every year divisible
/// by 4 but not by 100 has 366 days (the leap rule of the conversion's year
/// count): 365 a year, plus one for each such year in `[1970, year)`.
pub open spec fn days_before_year(year: int) -> int {
    365 * (year - 1970) + ((year - 1) / 4 - 492) - ((year - 1) / 100 - 19)
}

/// Days of `year` before the start of `month` (1 to 13) in the Gregorian
/// calendar: January 31, February 28 or 29, March 31, April 30, May 31,
/// June 30, July 31, August 31, September 30, October 31, November 30,
/// December 31.
pub open spec fn days_before_month(month: int, year: int) -> int {
    let feb = if (year % 4 == 0 && year % 100 != 0) || year % 400 == 0 { 29int } else { 28int };
    if month <= 1 {
        0
    } else if month == 2 {
        31
    } else if month == 3 {
        31 + feb
    } else if month == 4 {
        62 + feb
    } else if month == 5 {
        92 + feb
    } else if month == 6 {
        123 + feb
    } else if month == 7 {
        153 + feb
    } else if month == 8 {
        184 + feb
    } else if month == 9 {
        215 + feb
    } else if month == 10 {
        245 + feb
    } else if month == 11 {
        276 + feb
    } else if month == 12 {
        306 + feb
    } else {
        337 + feb
    }
}

proof fn lemma_year_step(y: int)
    requires
        y >= 1970,
    ensures
        days_before_year(y + 1) == days_before_year(y) + days_of_year(y),
        y % 4 != 0 ==> y % 100 != 0,
{
}

proof fn lemma_month_step(m: int, y: int)
    requires
        1 <= m <= 12,
    ensures
        days_before_month(m + 1, y) == days_before_month(m, y) + days_of_month(m, y),
{
}

proof fn lemma_years_closed(y: int, days: int)
    requires
        y >= 1970,
        days >= 0,
    ensures
        ({
            let (yy, r) = count_years(y, days);
            &&& days_before_year(y) + days == days_before_year(yy) + r
            &&& yy >= y
            &&& 0 <= r <= 366
            &&& yy == y || days_before_year(y) + days > days_before_year(yy - 1) + 366
        }),
    decreases days,
{
    lemma_year_step(y);
    if days > 366 && days_of_year(y) > 0 {
        lemma_years_closed(y + 1, days - days_of_year(y));
    }
}

proof fn lemma_months_closed(m: int, y: int, days: int)
    requires
        1 <= m <= 13,
        days >= 0,
        days_before_month(m, y) + days <= 366,
    ensures
        ({
            let (mm, d) = count_months(m, y, days);
            &&& days_before_month(m, y) + days == days_before_month(mm, y) + d
            &&& m <= mm <= 13
            &&& 0 <= d <= 31
            &&& mm == m || d + days_before_month(mm, y) - days_before_month(mm - 1, y) > 31
        }),
    decreases days,
{
    if days > 31 {
        assert(m <= 12);
        lemma_month_step(m, y);
        lemma_months_closed(m + 1, y, days - days_of_month(m, y));
    }
}

/// The calendar time of a timestamp, stated without the conversion's
/// loops. With `total` the days since 1970-01-01 in UTC+8: the time of day
/// is what is left of `tm + 8 h` after whole days; the year, month and
/// day (counted from 0) are the ones whose days since 1970-01-01 add up
/// to `total`, with years of 366 days exactly when divisible by 4 and not
/// by 100 and Gregorian months; a month is left only while more than 31
/// days remain, a year only while more than 366 remain, and 365 days left
/// in a year not divisible by 4 start the next one. These conditions fix
/// the result.
pub proof fn lemma_timestamp_calendar(tm: int)
    requires
        0 <= tm <= usize::MAX,
    ensures
        ({
            let t = time_of_timestamp(tm);
            let total = (tm + 28800) / 86400;
            let y = t.year as int;
            let m = t.month as int;
            let d = t.day as int;
            let r = days_before_month(m, y) + d;
            &&& tm + 28800 == ((total * 24 + t.hour) * 60 + t.minute) * 60 + t.second
            &&& t.hour < 24 && t.minute < 60 && t.second < 60
            &&& 1970 <= y && 1 <= m <= 13 && d <= 31
            &&& total == days_before_year(y) + r
            &&& r <= 366
            &&& m == 1 || d + days_before_month(m, y) - days_before_month(m - 1, y) > 31
            &&& y == 1970 || total > days_before_year(y - 1) + 366 || (r == 0 && (y - 1) % 4 != 0)
            &&& !(r == 365 && y % 4 != 0)
        }),
{
    let a = tm / 3600;
    let hour = (a + 8) % 24;
    let total = (a + 8) / 24;
    vstd::arithmetic::div_mod::lemma_fundamental_div_mod(tm, 3600);
    vstd::arithmetic::div_mod::lemma_fundamental_div_mod(a + 8, 24);
    vstd::arithmetic::div_mod::lemma_breakdown(tm, 60, 60);
    let b = tm % 3600;
    assert(tm + 28800 == total * 86400 + (hour * 3600 + b)) by (nonlinear_arith)
        requires
            tm == 3600 * a + b,
            a + 8 == 24 * total + hour,
    ;
    assert(0 <= hour * 3600 + b < 86400) by (nonlinear_arith)
        requires
            0 <= hour < 24,
            0 <= b < 3600,
    ;
    vstd::arithmetic::div_mod::lemma_fundamental_div_mod_converse(tm + 28800, 86400, total, hour * 3600 + b);
    assert(b == 60 * ((tm / 60) % 60) + tm % 60);
    assert(tm + 28800 == ((total * 24 + hour) * 60 + (tm / 60) % 60) * 60 + tm % 60) by (nonlinear_arith)
        requires
            tm + 28800 == total * 86400 + (hour * 3600 + b),
            b == 60 * ((tm / 60) % 60) + tm % 60,
    ;
    assert(total >= 0);
    lemma_years_closed(1970, total);
    lemma_count_years_bounds(1970, total);
    let (y0, r0) = count_years(1970, total);
    let (y1, r1) = settle_year(y0, r0);
    lemma_year_step(y0);
    lemma_months_closed(1, y1, r1);
    lemma_count_months_bounds(1, y1, r1);
    assert(total <= usize::MAX / 3600);
}

impl Time {
    /// Converts a timestamp in seconds since 1970 into calendar time (UTC+8).
    pub fn from_timestamp(tm: usize) -> (t: Self)
        ensures
            t == time_of_timestamp(tm as int),
    {
        let second = tm % 60;
        let minute = tm / 60 % 60;
        let hour = (tm / 3600 + 8) % 24;
        let total_day: usize = (tm / 3600 + 8) / 24;
        let mut year: usize = START_YEAR;
        let mut re_day: usize = total_day;
        proof {
            lemma_count_years_bounds(START_YEAR as int, total_day as int);
        }
        while re_day > 366
            invariant
                count_years(year as int, re_day as int) == count_years(
                    START_YEAR as int,
                    total_day as int,
                ),
                START_YEAR <= year,
                year + re_day <= START_YEAR + total_day,
                total_day <= usize::MAX / 24,
            decreases re_day,
        {
            let b = year % 100 != 0;
            if b && year % 4 == 0 || b && year % 400 == 0 {
                re_day -= 366;
            } else {
                re_day -= 365;
            }
            year += 1;
        }
        let b = year % 100 != 0;
        if re_day == 365 && b && year % 4 != 0 && b && year % 400 != 0 {
            year += 1;
            re_day -= 365;
        }
        let ghost settled = settle_year(
            count_years(START_YEAR as int, total_day as int).0,
            count_years(START_YEAR as int, total_day as int).1,
        );
        assert(settled == (year as int, re_day as int));
        let mut month: usize = 1;
        proof {
            lemma_count_months_bounds(1, year as int, re_day as int);
        }
        let ghost day0 = re_day;
        while re_day > 31
            invariant
                count_months(month as int, year as int, re_day as int) == count_months(
                    1,
                    year as int,
                    day0 as int,
                ),
                1 <= month,
                month + re_day <= 1 + day0,
                day0 <= usize::MAX / 24,
            decreases re_day,
        {
            if month <= 7 {
                if month == 2 {
                    if year % 100 != 0 && year % 4 == 0 || year % 100 == 0 && year % 400 == 0 {
                        re_day -= 29;
                    } else {
                        re_day -= 28;
                    }
                } else if month % 2 == 0 {
                    re_day -= 30;
                } else {
                    re_day -= 31;
                }
            } else {
                if month % 2 == 0 {
                    re_day -= 31;
                } else {
                    re_day -= 30;
                }
            }
            month += 1;
        }
        Time { year, month, day: re_day, hour, minute, second }
    }

    /// The calendar time of a raw clock reading in nanoseconds.
    pub fn read(raw: usize) -> (t: Self)
        ensures
            t == time_of_timestamp(raw as int / NANOS_PER_SECOND as int),
    {
        Self::from_timestamp(raw / NANOS_PER_SECOND)
    }
}

} // verus!
