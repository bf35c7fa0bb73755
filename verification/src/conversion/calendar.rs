//! The proleptic Gregorian calendar on a day axis with day 0 = 0001-01-01.

use vstd::prelude::*;

verus! {

/// Days from 0001-01-01 to 1900-01-01.
pub const DAYS_0001_TO_1900: i64 = 693_595;

/// Ticks of 100 nanoseconds in one day.
pub const TICKS_PER_DAY: i64 = 864_000_000_000;

/// The day number of 9999-12-31.
pub const MAX_DAYS_SINCE_0001: i64 = 3_652_058;

/// A calendar date.
#[derive(Debug, Clone, Copy, PartialEq, Eq, Structural)]
pub struct CivilDate {
    /// Proleptic Gregorian year.
    pub year: i16,
    /// Month in `1..=12`.
    pub month: u16,
    /// Day in `1..=31`.
    pub day: u16,
}

/// Whether `year` has a 29 February.
pub open spec fn is_leap(year: int) -> bool {
    year % 4 == 0 && year % 100 != 0 || year % 400 == 0
}

/// Days in `month` of `year`; 0 for a month that does not exist.
pub open spec fn month_length(year: int, month: int) -> int {
    if month == 4 || month == 6 || month == 9 || month == 11 {
        30
    } else if month == 2 {
        if is_leap(year) {
            29
        } else {
            28
        }
    } else if 1 <= month <= 12 {
        31
    } else {
        0
    }
}

/// Days from 0001-01-01 to the first of January of `year`.
pub open spec fn days_before_year(year: int) -> int {
    365 * (year - 1) + (year - 1) / 4 - (year - 1) / 100 + (year - 1) / 400
}

/// Days from the first of January of `year` to the first of `month`.
pub open spec fn days_before_month(year: int, month: int) -> int
    decreases month,
{
    if month <= 1 {
        0
    } else {
        days_before_month(year, month - 1) + month_length(year, month - 1)
    }
}

/// The day number of a date.
pub open spec fn day_number(year: int, month: int, day: int) -> int {
    days_before_year(year) + days_before_month(year, month) + day - 1
}

/// Whether the date exists.
pub open spec fn date_exists(year: int, month: int, day: int) -> bool {
    1 <= month <= 12 && 1 <= day <= month_length(year, month)
}

/// A year is 365 days long, or 366 when it is a leap year.
pub proof fn lemma_year_length(year: int)
    ensures
        days_before_year(year + 1) == days_before_year(year) + 365 + if is_leap(year) {
            1int
        } else {
            0
        },
{
}

/// The days before each month, as a table.
proof fn lemma_month_table(year: int)
    ensures
        days_before_month(year, 1) == 0,
        days_before_month(year, 2) == 31,
        ({
            let feb = if is_leap(year) {
                29int
            } else {
                28
            };
            &&& days_before_month(year, 3) == 31 + feb
            &&& days_before_month(year, 4) == 62 + feb
            &&& days_before_month(year, 5) == 92 + feb
            &&& days_before_month(year, 6) == 123 + feb
            &&& days_before_month(year, 7) == 153 + feb
            &&& days_before_month(year, 8) == 184 + feb
            &&& days_before_month(year, 9) == 215 + feb
            &&& days_before_month(year, 10) == 245 + feb
            &&& days_before_month(year, 11) == 276 + feb
            &&& days_before_month(year, 12) == 306 + feb
        }),
{
    reveal_with_fuel(days_before_month, 13);
}

/// Days in `month` of `year`; 0 for a month that does not exist.
pub fn days_in_month(year: i16, month: u16) -> (days: u16)
    ensures
        days == month_length(year as int, month as int),
{
    match month {
        1 | 3 | 5 | 7 | 8 | 10 | 12 => 31,
        4 | 6 | 9 | 11 => 30,
        2 => {
            // A year and the same year shifted by a multiple of 400 agree on
            // leap days, and the shifted one is not negative.
            let y: u32 = (year as i32 + 32_800) as u32;
            if (y % 4 == 0 && y % 100 != 0) || y % 400 == 0 {
                29
            } else {
                28
            }
        },
        _ => 0,
    }
}

/// The day number of a date, if SQL Server has that date: one that exists,
/// between 0001-01-01 and 9999-12-31.
pub fn days_since_0001_from_civil(year: i16, month: u16, day: u16) -> (days: Option<i64>)
    ensures
        days == (if 1 <= year <= 9999 && date_exists(year as int, month as int, day as int) {
            Some(day_number(year as int, month as int, day as int) as i64)
        } else {
            None
        }),
        days matches Some(n) ==> n == day_number(year as int, month as int, day as int),
{
    if year < 1 || year > 9999 || day == 0 || day > days_in_month(year, month) {
        return None;
    }
    // Years start in March here, so that the leap day is a year's last day.
    let shifted: u64 = if month <= 2 {
        (year - 1) as u64
    } else {
        year as u64
    };
    let era: u64 = shifted / 400;
    let year_of_era: u64 = shifted % 400;
    let m: u64 = if month > 2 {
        (month - 3) as u64
    } else {
        (month + 9) as u64
    };
    let day_of_year: u64 = (153 * m + 2) / 5 + (day as u64) - 1;
    let day_of_era: u64 = year_of_era * 365 + year_of_era / 4 - year_of_era / 100 + day_of_year;
    proof {
        lemma_month_table(year as int);
        lemma_year_length(shifted as int);
        lemma_march_year(shifted as int, era as int, year_of_era as int);
    }
    Some((era * 146_097 + day_of_era) as i64 - 306)
}

/// Days before 1 March of year `y`, counted from 1 March of year 0.
proof fn lemma_march_year(y: int, era: int, year_of_era: int)
    requires
        y == era * 400 + year_of_era,
        0 <= year_of_era < 400,
    ensures
        days_before_year(y + 1) == era * 146_097 + 365 * year_of_era + year_of_era / 4
            - year_of_era / 100,
{
    assert(y / 4 == era * 100 + year_of_era / 4);
    assert(y / 100 == era * 4 + year_of_era / 100);
    assert(y / 400 == era);
}

/// Days before year `y` of a 400-year era of March years.
spec fn before_year_of_era(y: int) -> int {
    365 * y + y / 4 - y / 100
}

/// The year of an era that a day of it falls in.
proof fn lemma_year_of_era(day: int, year: int)
    requires
        0 <= day <= 146_096,
        year == (day - day / 1460 + day / 36_524 - day / 146_096) / 365,
    ensures
        0 <= year <= 399,
        before_year_of_era(year) <= day,
        day < before_year_of_era(year + 1) || year == 399,
        day - before_year_of_era(year) <= 365,
        day - before_year_of_era(year) == 365 ==> (year + 1) % 4 == 0 && (year + 1) % 100 != 0
            || year == 399,
{
    // Within century `c`, `q` whole four-year cycles and `k` years.
    let c = if day >= 146_096 {
        3
    } else {
        day / 36_524
    };
    let in_century = day - c * 36_524;
    let q = in_century / 1461;
    let in_cycle = in_century - q * 1461;
    assert(0 <= c <= 3);
    assert(0 <= in_century <= 36_524);
    assert(0 <= q <= 24);
    let k = if in_cycle >= 1460 {
        3
    } else {
        in_cycle / 365
    };
    let y = 100 * c + 4 * q + k;
    assert(before_year_of_era(y) == c * 36_524 + q * 1461 + k * 365);
    assert(0 <= in_cycle - k * 365 <= 365);
    assert(day == before_year_of_era(y) + (in_cycle - k * 365));
    assert(year == y) by {
        lemma_year_formula(day, c, q, k, in_cycle - k * 365);
    }
}

/// The closed formula for the year finds century, cycle and year in it.
proof fn lemma_year_formula(day: int, c: int, q: int, k: int, rest: int)
    requires
        0 <= c <= 3,
        0 <= q <= 24,
        0 <= k <= 3,
        0 <= rest <= 365,
        rest == 365 ==> k == 3 && (q < 24 || c == 3),
        day == c * 36_524 + q * 1461 + k * 365 + rest,
    ensures
        (day - day / 1460 + day / 36_524 - day / 146_096) / 365 == 100 * c + 4 * q + k,
{
    let y = 100 * c + 4 * q + k;
    assert(day / 36_524 == c || day == 146_096 && day / 36_524 == 4);
    assert(day / 146_096 == if day == 146_096 {
        1int
    } else {
        0
    });
    let n = day / 1460;
    assert(1460 * n <= day < 1460 * n + 1460);
    assert(day == 1460 * (25 * c + q) + 24 * c + q + k * 365 + rest);
    assert(25 * c + q <= n <= 25 * c + q + 1);
    assert(365 * y <= day - n + c < 365 * y + 365);
}

/// The date `doy` days after 1 March of year `y`.
proof fn lemma_march_day(y: int, doy: int, mp: int, day: int, month: int, year: int)
    requires
        0 <= doy <= 365,
        doy == 365 ==> is_leap(y + 1),
        mp == (5 * doy + 2) / 153,
        day == doy - (153 * mp + 2) / 5 + 1,
        month == if mp < 10 {
            mp + 3
        } else {
            mp - 9
        },
        year == if month <= 2 {
            y + 1
        } else {
            y
        },
    ensures
        date_exists(year, month, day),
        day_number(year, month, day) == days_before_year(y + 1) + doy - 306,
{
    lemma_year_length(y);
    lemma_month_table(y);
    lemma_month_table(y + 1);
    assert(0 <= mp <= 11);
    if mp == 0 {
    } else if mp == 1 {
    } else if mp == 2 {
    } else if mp == 3 {
    } else if mp == 4 {
    } else if mp == 5 {
    } else if mp == 6 {
    } else if mp == 7 {
    } else if mp == 8 {
    } else if mp == 9 {
    } else if mp == 10 {
    } else {
    }
}

/// The year after year `yoe` of era `e` is a leap year by its place in the era
/// alone.
proof fn lemma_leap_in_era(e: int, yoe: int)
    requires
        0 <= yoe <= 399,
    ensures
        is_leap(400 * e + yoe + 1) == ((yoe + 1) % 4 == 0 && (yoe + 1) % 100 != 0 || yoe == 399),
{
    let y = 400 * e + yoe + 1;
    vstd::arithmetic::div_mod::lemma_mod_multiples_vanish(100 * e, yoe + 1, 4);
    vstd::arithmetic::div_mod::lemma_mod_multiples_vanish(4 * e, yoe + 1, 100);
    vstd::arithmetic::div_mod::lemma_mod_multiples_vanish(e, yoe + 1, 400);
    assert(4 * (100 * e) + (yoe + 1) == y);
    assert(100 * (4 * e) + (yoe + 1) == y);
    if yoe + 1 < 400 {
        vstd::arithmetic::div_mod::lemma_small_mod((yoe + 1) as nat, 400);
    }
    assert(400int % 400 == 0);
    assert(400int % 100 == 0);
    assert((yoe + 1) % 400 == 0 <==> yoe == 399);
}

/// The date of a day number, for every day of a year that fits the result.
pub fn civil_from_days_since_0001(days_since_0001: i64) -> (date: CivilDate)
    requires
        day_number(-32_768, 1, 1) <= days_since_0001 <= day_number(32_767, 12, 31),
    ensures
        date_exists(date.year as int, date.month as int, date.day as int),
        day_number(date.year as int, date.month as int, date.day as int) == days_since_0001,
{
    proof {
        lemma_month_table(-32_768);
        lemma_month_table(32_767);
    }
    // Counted from a 1 March far enough back that nothing is negative.
    let z: u64 = (days_since_0001 + 306 + 14_609_700) as u64;
    let era: u64 = z / 146_097;
    let day_of_era: u64 = z % 146_097;
    let year_of_era: u64 = (day_of_era - day_of_era / 1460 + day_of_era / 36_524 - day_of_era
        / 146_096) / 365;
    proof {
        lemma_year_of_era(day_of_era as int, year_of_era as int);
    }
    let y: i64 = (year_of_era + era * 400) as i64 - 40_000;
    let day_of_year: u64 = day_of_era - (365 * year_of_era + year_of_era / 4 - year_of_era / 100);
    let mp: u64 = (5 * day_of_year + 2) / 153;
    let day: u64 = day_of_year - (153 * mp + 2) / 5 + 1;
    let month: u64 = if mp < 10 {
        mp + 3
    } else {
        mp - 9
    };
    let year: i64 = if month <= 2 {
        y + 1
    } else {
        y
    };
    proof {
        let e = era as int - 100;
        lemma_march_year(y as int, e, year_of_era as int);
        lemma_leap_in_era(e, year_of_era as int);
        lemma_march_day(
            y as int,
            day_of_year as int,
            mp as int,
            day as int,
            month as int,
            year as int,
        );
        lemma_year_bounds(year as int, month as int, day as int);
    }
    CivilDate { year: year as i16, month: month as u16, day: day as u16 }
}

/// A date between the first day of year -32768 and the last of year 32767 has
/// one of those years.
proof fn lemma_year_bounds(year: int, month: int, day: int)
    requires
        date_exists(year, month, day),
        day_number(-32_768, 1, 1) <= day_number(year, month, day) <= day_number(32_767, 12, 31),
    ensures
        -32_768 <= year <= 32_767,
{
    lemma_month_table(-32_768);
    lemma_month_table(32_767);
    lemma_month_table(year);
    lemma_year_length(year);
    assert(0 <= days_before_month(year, month) + day - 1 < 365 + if is_leap(year) {
        1int
    } else {
        0
    });
}

/// Earlier years start on earlier days.
proof fn lemma_years_in_order(y1: int, y2: int)
    requires
        y1 <= y2,
    ensures
        days_before_year(y1) + 365 * (y2 - y1) <= days_before_year(y2),
    decreases y2 - y1,
{
    if y1 < y2 {
        lemma_years_in_order(y1, y2 - 1);
        lemma_year_length(y2 - 1);
    }
}

/// The days of a year come before the next year's.
proof fn lemma_day_within_year(year: int, month: int, day: int)
    requires
        date_exists(year, month, day),
    ensures
        days_before_year(year) <= day_number(year, month, day) < days_before_year(year + 1),
{
    lemma_month_table(year);
    lemma_year_length(year);
}

/// Later months of a year start after the days of earlier ones.
proof fn lemma_months_in_order(year: int, m1: int, m2: int)
    requires
        1 <= m1 < m2 <= 12,
    ensures
        days_before_month(year, m1) + month_length(year, m1) <= days_before_month(year, m2),
    decreases m2 - m1,
{
    if m1 + 1 < m2 {
        lemma_months_in_order(year, m1, m2 - 1);
    }
}

/// Dates and day numbers are in the same order; in particular two dates with
/// one day number are the same date.
pub proof fn dates_and_day_numbers_agree_in_order(
    y1: int,
    m1: int,
    d1: int,
    y2: int,
    m2: int,
    d2: int,
)
    requires
        date_exists(y1, m1, d1),
        date_exists(y2, m2, d2),
    ensures
        day_number(y1, m1, d1) < day_number(y2, m2, d2) <==> (y1 < y2 || y1 == y2 && (m1 < m2 || m1
            == m2 && d1 < d2)),
        day_number(y1, m1, d1) == day_number(y2, m2, d2) <==> (y1 == y2 && m1 == m2 && d1 == d2),
{
    lemma_day_within_year(y1, m1, d1);
    lemma_day_within_year(y2, m2, d2);
    if y1 < y2 {
        lemma_years_in_order(y1 + 1, y2);
    } else if y2 < y1 {
        lemma_years_in_order(y2 + 1, y1);
    } else if m1 < m2 {
        lemma_months_in_order(y1, m1, m2);
    } else if m2 < m1 {
        lemma_months_in_order(y1, m2, m1);
    }
}

/// The dates of the years 1 to 9999 are the day numbers from 0 to that of
/// 9999-12-31.
pub proof fn sql_dates_are_the_day_numbers_up_to_the_maximum(year: int, month: int, day: int)
    requires
        date_exists(year, month, day),
    ensures
        1 <= year <= 9999 <==> 0 <= day_number(year, month, day) <= MAX_DAYS_SINCE_0001,
{
    lemma_day_within_year(year, month, day);
    assert(days_before_year(1) == 0);
    assert(days_before_year(10_000) == MAX_DAYS_SINCE_0001 + 1);
    if year < 1 {
        lemma_years_in_order(year + 1, 1);
    } else if year > 9999 {
        lemma_years_in_order(10_000, year);
    } else {
        lemma_years_in_order(1, year);
        lemma_years_in_order(year + 1, 10_000);
    }
}

/// The two directions of the calendar undo each other: a date SQL Server has
/// is the date of its own day number.
pub proof fn calendar_round_trips(date: CivilDate, back: CivilDate)
    requires
        date_exists(date.year as int, date.month as int, date.day as int),
        date_exists(back.year as int, back.month as int, back.day as int),
        day_number(back.year as int, back.month as int, back.day as int) == day_number(
            date.year as int,
            date.month as int,
            date.day as int,
        ),
    ensures
        back == date,
{
    dates_and_day_numbers_agree_in_order(
        date.year as int,
        date.month as int,
        date.day as int,
        back.year as int,
        back.month as int,
        back.day as int,
    );
}

/// A wall-clock time of day.
#[derive(Debug, Clone, Copy, PartialEq, Eq, Structural)]
pub struct TimeOfDay {
    /// Hour in `0..=23`.
    pub hour: u16,
    /// Minute in `0..=59`.
    pub minute: u16,
    /// Second in `0..=59`.
    pub second: u16,
    /// Nanoseconds of the second.
    pub fraction_ns: u32,
}

/// Ticks of 100 nanoseconds since midnight, for a time without a finer part.
pub open spec fn ticks_of(time: TimeOfDay) -> int {
    ((time.hour * 60 + time.minute) * 60 + time.second) * 10_000_000 + time.fraction_ns / 100
}

/// The time of day after a count of 100-nanosecond ticks since midnight.
pub fn hms_from_ticks_100ns(ticks: u64) -> (time: TimeOfDay)
    requires
        ticks < 65_536 * 36_000_000_000,
    ensures
        ticks_of(time) == ticks,
        time.minute < 60,
        time.second < 60,
        time.fraction_ns < 1_000_000_000,
        time.fraction_ns % 100 == 0,
        ticks < TICKS_PER_DAY ==> time.hour < 24,
{
    let secs: u64 = ticks / 10_000_000;
    let fraction_ns: u32 = ((ticks % 10_000_000) * 100) as u32;
    TimeOfDay {
        hour: (secs / 3600) as u16,
        minute: ((secs % 3600) / 60) as u16,
        second: (secs % 60) as u16,
        fraction_ns,
    }
}

/// The months take turns: from January to July the odd ones have 31 days, from
/// August on the even ones; the others have 30, but for February. There is no
/// thirteenth.
pub proof fn months_take_turns(year: int, month: int)
    ensures
        1 <= month <= 7 && month % 2 == 1 ==> month_length(year, month) == 31,
        8 <= month <= 12 && month % 2 == 0 ==> month_length(year, month) == 31,
        1 <= month <= 7 && month % 2 == 0 && month != 2 ==> month_length(year, month) == 30,
        8 <= month <= 12 && month % 2 == 1 ==> month_length(year, month) == 30,
        month_length(year, 2) == 28 || month_length(year, 2) == 29,
        month < 1 || month > 12 ==> month_length(year, month) == 0,
{
    if 1 <= month <= 12 {
        assert(month == 1 || month == 2 || month == 3 || month == 4 || month == 5 || month == 6
            || month == 7 || month == 8 || month == 9 || month == 10 || month == 11 || month
            == 12);
    }
}

/// Every fourth year has a 29 February, of the last years of the centuries every
/// fourth one.
pub proof fn leap_years_come_every_fourth_year(year: int)
    ensures
        year % 4 != 0 ==> month_length(year, 2) == 28,
        year % 4 == 0 && year % 100 != 0 ==> month_length(year, 2) == 29,
        year % 100 == 0 && year % 400 != 0 ==> month_length(year, 2) == 28,
        year % 400 == 0 ==> month_length(year, 2) == 29,
{
    if year % 400 == 0 {
        assert(year % 4 == 0);
    }
    if year % 100 == 0 {
        assert(year % 4 == 0);
    }
}

/// The day axis counts days: it starts on 1 January of the year 1, a day's number
/// is one more than that of the day before, over the ends of months and years too,
/// and the axis's named days stand where they are named to.
pub proof fn days_are_counted_one_by_one(year: int, month: int, day: int)
    requires
        date_exists(year, month, day),
    ensures
        day_number(1, 1, 1) == 0,
        day < month_length(year, month) ==> day_number(year, month, day + 1) == day_number(
            year,
            month,
            day,
        ) + 1,
        day == month_length(year, month) && month < 12 ==> day_number(year, month + 1, 1)
            == day_number(year, month, day) + 1,
        day == month_length(year, month) && month == 12 ==> day_number(year + 1, 1, 1)
            == day_number(year, month, day) + 1,
        day_number(1900, 1, 1) == DAYS_0001_TO_1900,
        day_number(9999, 12, 31) == MAX_DAYS_SINCE_0001,
{
    lemma_month_table(1);
    lemma_month_table(year);
    lemma_year_length(year);
    lemma_month_table(year + 1);
    lemma_month_table(1900);
    lemma_month_table(9999);
}

/// A day has 24 hours of 60 minutes of 60 seconds of ten million ticks: midnight
/// is none of them, and a unit more is its ticks more.
pub proof fn ticks_count_the_time_of_day(time: TimeOfDay)
    ensures
        ticks_of(TimeOfDay { hour: 0, minute: 0, second: 0, fraction_ns: 0 }) == 0,
        time.hour < u16::MAX ==> ticks_of(TimeOfDay { hour: (time.hour + 1) as u16, ..time })
            == ticks_of(time) + 36_000_000_000,
        time.minute < u16::MAX ==> ticks_of(TimeOfDay { minute: (time.minute + 1) as u16, ..time })
            == ticks_of(time) + 600_000_000,
        time.second < u16::MAX ==> ticks_of(TimeOfDay { second: (time.second + 1) as u16, ..time })
            == ticks_of(time) + 10_000_000,
        time.fraction_ns <= u32::MAX - 100 ==> ticks_of(
            TimeOfDay { fraction_ns: (time.fraction_ns + 100) as u32, ..time },
        ) == ticks_of(time) + 1,
        TICKS_PER_DAY == 24 * 36_000_000_000,
        time.hour < 24 && time.minute < 60 && time.second < 60 && time.fraction_ns < 1_000_000_000
            ==> 0 <= ticks_of(time) < TICKS_PER_DAY,
{
}

/// Two times of day without a part finer than a tick are the same where their
/// ticks are.
pub proof fn ticks_determine_the_time_of_day(a: TimeOfDay, b: TimeOfDay)
    requires
        ticks_of(a) == ticks_of(b),
        a.minute < 60 && a.second < 60 && a.fraction_ns < 1_000_000_000 && a.fraction_ns % 100 == 0,
        b.minute < 60 && b.second < 60 && b.fraction_ns < 1_000_000_000 && b.fraction_ns % 100 == 0,
    ensures
        a == b,
{
    let x = a.fraction_ns / 100;
    let y = b.fraction_ns / 100;
    assert(x < 10_000_000 && y < 10_000_000);
    assert(a.second == b.second);
}

} // verus!
