//! Days and dates of the proleptic Gregorian calendar.
//!
//! A day is counted from 1 January 1970, which is day zero. The calendar is
//! stated directly: which years are leap years, how long each month is, and
//! how many days lie before a year and before a month. The two conversions
//! compute with years that start in March, so that the leap day is the last
//! day of the year; they are proved to agree with the direct statement.

use vstd::prelude::*;

verus! {

/// Whether `y` is a leap year.
pub open spec fn is_leap_year(y: int) -> bool {
    y % 4 == 0 && (y % 100 != 0 || y % 400 == 0)
}

/// The number of days of month `m` in year `y`.
pub open spec fn days_in_month(y: int, m: int) -> int {
    if m == 2 {
        if is_leap_year(y) {
            29
        } else {
            28
        }
    } else if m == 4 || m == 6 || m == 9 || m == 11 {
        30
    } else {
        31
    }
}

/// Whether day `d` of month `m` of year `y` is a date of the calendar.
pub open spec fn is_date(y: int, m: int, d: int) -> bool {
    1 <= m <= 12 && 1 <= d <= days_in_month(y, m)
}

/// The leap years before year `y`, counted from year one.
pub open spec fn leap_years_before(y: int) -> int {
    (y - 1) / 4 - (y - 1) / 100 + (y - 1) / 400
}

/// The number of the first day of year `y`.
pub open spec fn days_before_year(y: int) -> int {
    365 * (y - 1970) + leap_years_before(y) - leap_years_before(1970)
}

/// The days of year `y` that lie before its month `m`.
pub open spec fn days_before_month(y: int, m: int) -> int
    decreases m,
{
    if m <= 1 {
        0
    } else {
        days_before_month(y, m - 1) + days_in_month(y, m - 1)
    }
}

/// The number of the date `d.m.y`.
pub open spec fn day_number(y: int, m: int, d: int) -> int {
    days_before_year(y) + days_before_month(y, m) + d - 1
}

/// The day number that the conversion from dates computes, for any three
/// numbers: it counts in years that start in March and in eras of 400 years.
pub open spec fn civil_to_days(y: int, m: int, d: int) -> int {
    let y = if m <= 2 {
        y - 1
    } else {
        y
    };
    let era = y / 400;
    let yoe = y - era * 400;
    let doy = (153 * ((m + 9) % 12) + 2) / 5 + d - 1;
    let doe = yoe * 365 + yoe / 4 - yoe / 100 + doy;
    era * 146_097 + doe - 719_468
}

/// The year within its era of 400 years, counted from March, of the day
/// that is `doe` days into the era.
pub open spec fn march_year_of_era(doe: int) -> int {
    (doe - doe / 1460 + doe / 36_524 - doe / 146_096) / 365
}

/// The days that the day `doe` days into its era lies after the 1 March
/// before it.
pub open spec fn day_of_march_year(doe: int) -> int {
    let yoe = march_year_of_era(doe);
    doe - (365 * yoe + yoe / 4 - yoe / 100)
}

/// The calendar month of a month counted from March, where March is month
/// zero and February month eleven.
pub open spec fn month_from_march(mp: int) -> int {
    if mp < 10 {
        mp + 3
    } else {
        mp - 9
    }
}

/// The year, month and day that the conversion from day numbers computes,
/// for any number. From 1 March of year zero on, which is day -719468, it is
/// the date of that day. Before, the era is taken one too low for all days
/// but the last of each era, and what comes out is not the day's date.
pub open spec fn days_to_civil(z: int) -> (int, int, int) {
    let z = z + 719_468;
    let era = (if z >= 0 {
        z
    } else {
        z - 146_096
    }) / 146_097;
    let doe = z - era * 146_097;
    let yoe = march_year_of_era(doe);
    let doy = day_of_march_year(doe);
    let mp = (5 * doy + 2) / 153;
    let d = doy - (153 * mp + 2) / 5 + 1;
    let m = month_from_march(mp);
    let y = yoe + era * 400 + if m <= 2 {
        1int
    } else {
        0int
    };
    (y, m, d)
}

/// The number of the day `d.m.y`, counted from 1 January 1970. It is
/// computed for any three numbers; `d` is read as a signed 32-bit number.
pub fn days_from_civil(y: i32, m: u32, d: u32) -> (days: i64)
    ensures
        days == civil_to_days(y as int, m as int, (d as i32) as int),
        d <= i32::MAX ==> days == civil_to_days(y as int, m as int, d as int),
        -800_000_000_000 < days < 800_000_000_000,
{
    let d: i32 = #[verifier::truncate] (d as i32);
    let y: i64 = if m <= 2 { y as i64 - 1 } else { y as i64 };
    let era: i64 = if y % 400 < 0 { y / 400 - 1 } else { y / 400 };
    let yoe: i64 = y - era * 400;
    let m: i64 = m as i64;
    let doy: i64 = (153 * ((m + 9) % 12) + 2) / 5 + d as i64 - 1;
    let doe: i64 = yoe * 365 + yoe / 4 - yoe / 100 + doy;
    era * 146_097 + doe - 719_468
}

/// The year, month and day of day number `z`, counted from 1 January 1970.
/// It is computed for any number; a year that does not fit in 32 bits is cut
/// to its low 32 bits.
#[verifier::rlimit(50)]
pub fn civil_from_days(z: i64) -> (date: (i32, u32, u32))
    ensures
        date.0 == days_to_civil(z as int).0 as i32,
        date.1 == days_to_civil(z as int).1,
        date.2 == days_to_civil(z as int).2,
        1 <= date.1 <= 12,
        1 <= date.2 <= 31,
        -719_468 <= z <= 784_351_576_776 ==> date.0 == days_to_civil(z as int).0,
{
    let shifted: i128 = z as i128 + 719_468;
    let biased: i128 = if shifted >= 0 { shifted } else { shifted - 146_096 };
    let era: i128 = if biased % 146_097 < 0 { biased / 146_097 - 1 } else { biased / 146_097 };
    assert(era == (biased as int) / 146_097);
    let doe: i128 = shifted - era * 146_097;
    assert(0 <= doe <= 292_192);
    proof {
        lemma_march_year_is_sound(doe as int);
    }
    let yoe: i128 = (doe - doe / 1460 + doe / 36_524 - doe / 146_096) / 365;
    assert(yoe == march_year_of_era(doe as int));
    let doy: i128 = doe - (365 * yoe + yoe / 4 - yoe / 100);
    assert(doy == day_of_march_year(doe as int));
    proof {
        lemma_month_is_sound(doy as int);
    }
    let mp: i128 = (5 * doy + 2) / 153;
    let d: i128 = doy - (153 * mp + 2) / 5 + 1;
    let m: i128 = if mp < 10 { mp + 3 } else { mp - 9 };
    let y: i128 = yoe + era * 400 + if m <= 2 { 1 } else { 0 };
    assert(days_to_civil(z as int) == (y as int, m as int, d as int));
    proof {
        if -719_468 <= z <= 784_351_576_776 {
            lemma_year_fits(z as int);
        }
    }
    (#[verifier::truncate] (y as i32), m as u32, d as u32)
}

/// Within the first four centuries of an era, which are all of it but its
/// last day, the year counted from March lies in the day's century, the day
/// lies within that year, and the year has a 366th day only where the
/// calendar year that ends it is a leap year.
#[verifier::rlimit(50)]
proof fn lemma_century(doe: int, c: int)
    requires
        0 <= c <= 3,
        c * 36_524 <= doe < (c + 1) * 36_524,
    ensures
        0 <= day_of_march_year(doe) <= 365,
        c * 100 <= march_year_of_era(doe) < (c + 1) * 100,
        day_of_march_year(doe) == 365 ==> (march_year_of_era(doe) + 1) % 4 == 0 && (
        march_year_of_era(doe) + 1) % 100 != 0,
{
}

/// Beyond the first four centuries of an era the year and the day within it
/// are still not negative.
#[verifier::rlimit(50)]
proof fn lemma_late_century(doe: int, c: int)
    requires
        4 <= c <= 8,
        c * 36_524 <= doe < (c + 1) * 36_524,
        doe <= 292_192,
    ensures
        0 <= day_of_march_year(doe) <= 366,
        0 <= march_year_of_era(doe) < 800,
{
}

/// For every count of days that the conversion can meet, the year within
/// the era and the day within the year are not negative.
proof fn lemma_march_year_is_sound(doe: int)
    requires
        0 <= doe <= 292_192,
    ensures
        0 <= day_of_march_year(doe) <= 366,
        0 <= march_year_of_era(doe) < 800,
{
    let c = doe / 36_524;
    if c <= 3 {
        lemma_century(doe, c);
    } else {
        lemma_late_century(doe, c);
    }
}

/// Within an era the year counted from March is one of its 400, the day
/// lies within that year, and the year has a 366th day only where the
/// calendar year that ends it is a leap year.
proof fn lemma_march_year_in_era(doe: int)
    requires
        0 <= doe <= 146_096,
    ensures
        0 <= march_year_of_era(doe) <= 399,
        0 <= day_of_march_year(doe) <= 365,
        day_of_march_year(doe) == 365 ==> (march_year_of_era(doe) + 1) % 4 == 0 && ((
        march_year_of_era(doe) + 1) % 100 != 0 || march_year_of_era(doe) == 399),
{
    let c = doe / 36_524;
    if c <= 3 {
        lemma_century(doe, c);
    } else {
        assert(doe == 146_096);
    }
}

/// A day within a year that starts in March falls in one of twelve months,
/// on one of at most 31 days.
proof fn lemma_month_is_sound(doy: int)
    requires
        0 <= doy <= 366,
    ensures
        0 <= (5 * doy + 2) / 153 <= 11,
        1 <= doy - (153 * ((5 * doy + 2) / 153) + 2) / 5 + 1 <= 31,
{
}

/// The days from 1 March of year zero to the last day of the last year
/// that fits in 32 bits have years that fit in 32 bits.
#[verifier::rlimit(50)]
proof fn lemma_year_fits(z: int)
    requires
        -719_468 <= z <= 784_351_576_776,
    ensures
        0 <= days_to_civil(z).0 <= 2_147_483_647,
{
    law_civil_from_days_gives_the_date(z);
    let (y, m, d) = days_to_civil(z);
    if y > 2_147_483_647 {
        let shifted = if m <= 2 {
            y - 1
        } else {
            y
        };
        let era = shifted / 400;
        let yoe = shifted - era * 400;
        assert(shifted >= 2_147_483_647);
        assert(era >= 5_368_709);
        assert(era * 146_097 + yoe * 365 + yoe / 4 - yoe / 100 >= 5_368_709 * 146_097 + 47 * 365
            + 11);
        assert(civil_to_days(y, m, d) > 784_351_576_776);
    }
}

/// The days of a year before each of its months, and before the next year.
proof fn lemma_days_before_month(y: int, m: int)
    requires
        1 <= m <= 13,
    ensures
        days_before_month(y, m) == if m <= 2 {
            31 * (m - 1)
        } else {
            (153 * (m - 3) + 2) / 5 + 59 + if is_leap_year(y) {
                1int
            } else {
                0int
            }
        },
    decreases m,
{
    if m > 1 {
        lemma_days_before_month(y, m - 1);
    }
}

/// One more leap year lies before the next year exactly where this year is
/// a leap year.
proof fn lemma_leap_years_step(y: int)
    ensures
        leap_years_before(y + 1) == leap_years_before(y) + if is_leap_year(y) {
            1int
        } else {
            0int
        },
{
    assert(y / 4 - (y - 1) / 4 == if y % 4 == 0 {
        1int
    } else {
        0int
    });
    assert(y / 100 - (y - 1) / 100 == if y % 100 == 0 {
        1int
    } else {
        0int
    });
    assert(y / 400 - (y - 1) / 400 == if y % 400 == 0 {
        1int
    } else {
        0int
    });
    assert(y % 400 == 0 ==> y % 100 == 0);
    assert(y % 100 == 0 ==> y % 4 == 0);
}

/// The leap years before a year, in terms of its era and its year of the era.
proof fn lemma_leap_years_in_eras(y: int)
    ensures
        leap_years_before(y + 1) == (y / 400) * 97 + (y - (y / 400) * 400) / 4 - (y - (y / 400)
            * 400) / 100,
{
    let era = y / 400;
    let yoe = y - era * 400;
    assert(0 <= yoe <= 399);
    assert(y / 4 == era * 100 + yoe / 4);
    assert(y / 100 == era * 4 + yoe / 100);
}

/// A year has 365 days, and one more if it is a leap year.
pub proof fn law_year_length(y: int)
    ensures
        days_before_year(y + 1) - days_before_year(y) == if is_leap_year(y) {
            366int
        } else {
            365int
        },
        days_before_year(1970) == 0,
        days_before_month(y, 13) == days_before_year(y + 1) - days_before_year(y),
{
    lemma_leap_years_step(y);
    lemma_days_before_month(y, 13);
}

/// On the dates of the calendar, the conversion from dates gives the number
/// of the day.
#[verifier::rlimit(50)]
pub proof fn law_days_from_civil_counts_days(y: int, m: int, d: int)
    requires
        is_date(y, m, d),
    ensures
        civil_to_days(y, m, d) == day_number(y, m, d),
{
    lemma_days_before_month(y, m);
    let shifted = if m <= 2 {
        y - 1
    } else {
        y
    };
    let era = shifted / 400;
    let yoe = shifted - era * 400;
    lemma_leap_years_in_eras(shifted);
    assert(leap_years_before(1970) == 477);
    if m <= 2 {
        assert((153 * ((m + 9) % 12) + 2) / 5 == 306 + 31 * (m - 1));
        assert(days_before_year(y) == era * 146_097 + yoe * 365 + yoe / 4 - yoe / 100 + 365
            - 719_527);
    } else {
        lemma_leap_years_step(y);
        assert((m + 9) % 12 == m - 3);
        assert(days_before_year(y) + 59 + (if is_leap_year(y) {
            1int
        } else {
            0int
        }) == era * 146_097 + yoe * 365 + yoe / 4 - yoe / 100 - 719_468);
    }
}

/// The month and the day of the month of a day of a year that starts in
/// March: they are in range, they give the day of the year back, and the
/// day lies within the length of its month, where February is as long as
/// the year has days left.
#[verifier::rlimit(50)]
proof fn lemma_month_and_day(doy: int)
    requires
        0 <= doy <= 365,
    ensures
        ({
            let mp = (5 * doy + 2) / 153;
            let d = doy - (153 * mp + 2) / 5 + 1;
            &&& 0 <= mp <= 11
            &&& 1 <= d
            &&& (153 * mp + 2) / 5 + d - 1 == doy
            &&& mp == 11 ==> d == doy - 336
            &&& (mp == 0 || mp == 2 || mp == 4 || mp == 5 || mp == 7 || mp == 9 || mp == 10) ==> d
                <= 31
            &&& (mp == 1 || mp == 3 || mp == 6 || mp == 8) ==> d <= 30
        }),
{
}

/// The conversion from dates, applied to a date given by its era, its year
/// of the era and its month counted from March, gives the date's place in
/// the era.
#[verifier::rlimit(50)]
proof fn lemma_days_of_parts(era: int, yoe: int, mp: int, d: int)
    requires
        0 <= yoe <= 399,
        0 <= mp <= 11,
    ensures
        civil_to_days(
            yoe + era * 400 + if mp < 10 {
                0int
            } else {
                1int
            },
            month_from_march(mp),
            d,
        ) == era * 146_097 + yoe * 365 + yoe / 4 - yoe / 100 + (153 * mp + 2) / 5 + d - 1
            - 719_468,
{
    let m = month_from_march(mp);
    let y = yoe + era * 400 + if mp < 10 {
        0int
    } else {
        1int
    };
    let shifted = if m <= 2 {
        y - 1
    } else {
        y
    };
    assert(shifted == yoe + era * 400);
    assert(shifted / 400 == era);
    assert((m + 9) % 12 == mp);
}

/// A leap day at the end of a year counted from March makes the calendar
/// year in which it falls a leap year.
proof fn lemma_leap_day_year(era: int, yoe: int)
    requires
        0 <= yoe <= 399,
        (yoe + 1) % 4 == 0,
        (yoe + 1) % 100 != 0 || yoe == 399,
    ensures
        is_leap_year(yoe + era * 400 + 1),
{
    let y = yoe + era * 400 + 1;
    assert(y % 4 == (yoe + 1) % 4);
    assert(y % 100 == (yoe + 1) % 100);
    if yoe == 399 {
        assert(y == (era + 1) * 400);
        assert(y % 400 == 0);
    }
}

/// The date made up of an era, a year of the era that starts in March and
/// a day of that year is a date of the calendar, and the conversion from
/// dates gives its place in the era back.
#[verifier::rlimit(50)]
proof fn lemma_date_from_parts(era: int, yoe: int, doy: int)
    requires
        0 <= yoe <= 399,
        0 <= doy <= 365,
        doy == 365 ==> (yoe + 1) % 4 == 0 && ((yoe + 1) % 100 != 0 || yoe == 399),
    ensures
        ({
            let mp = (5 * doy + 2) / 153;
            let d = doy - (153 * mp + 2) / 5 + 1;
            let m = month_from_march(mp);
            let y = yoe + era * 400 + if m <= 2 {
                1int
            } else {
                0int
            };
            &&& is_date(y, m, d)
            &&& civil_to_days(y, m, d) == era * 146_097 + yoe * 365 + yoe / 4 - yoe / 100 + doy
                - 719_468
        }),
{
    lemma_month_and_day(doy);
    let mp = (5 * doy + 2) / 153;
    let d = doy - (153 * mp + 2) / 5 + 1;
    lemma_days_of_parts(era, yoe, mp, d);
    if doy == 365 {
        lemma_leap_day_year(era, yoe);
    }
}

/// From 1 March of year zero on, the conversion from day numbers gives a
/// date of the calendar, and it is the date of that day.
#[verifier::rlimit(50)]
pub proof fn law_civil_from_days_gives_the_date(z: int)
    requires
        z >= -719_468,
    ensures
        is_date(days_to_civil(z).0, days_to_civil(z).1, days_to_civil(z).2),
        day_number(days_to_civil(z).0, days_to_civil(z).1, days_to_civil(z).2) == z,
        civil_to_days(days_to_civil(z).0, days_to_civil(z).1, days_to_civil(z).2) == z,
        days_to_civil(z).0 >= 0,
{
    let shifted = z + 719_468;
    let era = shifted / 146_097;
    let doe = shifted - era * 146_097;
    lemma_march_year_in_era(doe);
    let yoe = march_year_of_era(doe);
    let doy = day_of_march_year(doe);
    assert(doe == yoe * 365 + yoe / 4 - yoe / 100 + doy);
    lemma_date_from_parts(era, yoe, doy);
    let (y, m, d) = days_to_civil(z);
    assert(era >= 0);
    law_days_from_civil_counts_days(y, m, d);
}

/// A later year of an era starts at least a year's length after an earlier
/// one, where a year that ends in a leap day is 366 days long.
#[verifier::rlimit(50)]
proof fn lemma_year_starts_grow(a: int, b: int)
    requires
        0 <= a <= 399,
        0 <= b <= 399,
        a < b,
    ensures
        b * 365 + b / 4 - b / 100 >= a * 365 + a / 4 - a / 100 + 365 + if (a + 1) % 4 == 0 && ((a
            + 1) % 100 != 0 || a == 399) {
            1int
        } else {
            0int
        },
{
    let next = a + 1;
    assert(next / 4 - a / 4 == if next % 4 == 0 {
        1int
    } else {
        0int
    });
    assert(next / 100 - a / 100 == if next % 100 == 0 {
        1int
    } else {
        0int
    });
    assert(b / 4 >= next / 4);
    assert(b / 100 - next / 100 <= b - next);
}

/// The day of an era that a year of the era and a day of that year make up
/// has that year and that day.
#[verifier::rlimit(50)]
proof fn lemma_era_day_round_trip(yoe: int, doy: int)
    requires
        0 <= yoe <= 399,
        0 <= doy <= 365,
        doy == 365 ==> (yoe + 1) % 4 == 0 && ((yoe + 1) % 100 != 0 || yoe == 399),
    ensures
        0 <= yoe * 365 + yoe / 4 - yoe / 100 + doy <= 146_096,
        march_year_of_era(yoe * 365 + yoe / 4 - yoe / 100 + doy) == yoe,
        day_of_march_year(yoe * 365 + yoe / 4 - yoe / 100 + doy) == doy,
{
    let doe = yoe * 365 + yoe / 4 - yoe / 100 + doy;
    assert(0 <= doe <= 146_096);
    lemma_march_year_in_era(doe);
    let yoe2 = march_year_of_era(doe);
    let doy2 = day_of_march_year(doe);
    assert(doe == yoe2 * 365 + yoe2 / 4 - yoe2 / 100 + doy2);
    if yoe < yoe2 {
        lemma_year_starts_grow(yoe, yoe2);
    } else if yoe2 < yoe {
        lemma_year_starts_grow(yoe2, yoe);
    }
}

/// The place in its era of a date of the calendar: the year of the era
/// that starts in March, and the day of that year.
#[verifier::rlimit(50)]
proof fn lemma_parts_of_date(y: int, m: int, d: int)
    requires
        is_date(y, m, d),
    ensures
        ({
            let shifted = if m <= 2 {
                y - 1
            } else {
                y
            };
            let era = shifted / 400;
            let yoe = shifted - era * 400;
            let mp = (m + 9) % 12;
            let doy = (153 * mp + 2) / 5 + d - 1;
            &&& 0 <= yoe <= 399
            &&& 0 <= mp <= 11
            &&& 0 <= doy <= 365
            &&& doy == 365 ==> (yoe + 1) % 4 == 0 && ((yoe + 1) % 100 != 0 || yoe == 399)
            &&& (5 * doy + 2) / 153 == mp
            &&& doy - (153 * mp + 2) / 5 + 1 == d
            &&& m == month_from_march(mp)
        }),
{
    let shifted = if m <= 2 {
        y - 1
    } else {
        y
    };
    let era = shifted / 400;
    let yoe = shifted - era * 400;
    let mp = (m + 9) % 12;
    let doy = (153 * mp + 2) / 5 + d - 1;
    assert(mp == if m <= 2 {
        m + 9
    } else {
        m - 3
    });
    if m == 2 && d == 29 {
        assert(is_leap_year(y));
        assert(y == era * 400 + yoe + 1);
        assert(y % 4 == (yoe + 1) % 4);
        assert(y % 100 == (yoe + 1) % 100);
        if (yoe + 1) % 100 == 0 {
            assert(y % 400 == 0);
            assert((yoe + 1) % 400 == 0);
        }
    }
}

/// From 1 March of year zero on, a date comes back unchanged from its day
/// number.
#[verifier::rlimit(50)]
pub proof fn law_date_round_trip(y: int, m: int, d: int)
    requires
        is_date(y, m, d),
        y > 0 || (y == 0 && m >= 3),
    ensures
        civil_to_days(y, m, d) >= -719_468,
        days_to_civil(civil_to_days(y, m, d)) == (y, m, d),
{
    lemma_parts_of_date(y, m, d);
    let shifted = if m <= 2 {
        y - 1
    } else {
        y
    };
    let era = shifted / 400;
    let yoe = shifted - era * 400;
    let mp = (m + 9) % 12;
    let doy = (153 * mp + 2) / 5 + d - 1;
    lemma_era_day_round_trip(yoe, doy);
    let doe = yoe * 365 + yoe / 4 - yoe / 100 + doy;
    let z = civil_to_days(y, m, d);
    assert(era >= 0);
    assert(z + 719_468 == era * 146_097 + doe);
    assert((z + 719_468) / 146_097 == era);
    assert(z + 719_468 - era * 146_097 == doe);
    assert(yoe + era * 400 + (if m <= 2 {
        1int
    } else {
        0int
    }) == y);
}

} // verus!
