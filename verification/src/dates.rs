//! Conversions between calendar dates and day numbers (days since
//! 1970-01-01), and the day of the week.
use vstd::prelude::*;

use crate::calendar::{date_of, day_number, lemma_date_of_parts, lemma_era, lemma_march, weekday_of};

verus! {

/// The calendar month, with its year, that `days_from_civil` reads from
/// month number `m` of year `y`. Months 1 to 12 stand for themselves
/// (`lemma_month_as_read_valid`); any other number is reduced modulo 12,
/// counting in the March-based year that the number falls in: 0 is
/// December of the year before, and 13, 14, 25, 26, ... are January and
/// February of the year after.
pub open spec fn month_as_read(y: int, m: int) -> (int, int) {
    let mp = (m + 9) % 12;
    let ym = if m <= 2 {
        y - 1
    } else {
        y
    };
    if mp < 10 {
        (ym, mp + 3)
    } else {
        (ym + 1, mp - 9)
    }
}

/// Months 1 to 12 are read as themselves.
pub proof fn lemma_month_as_read_valid(y: int, m: int)
    requires
        1 <= m <= 12,
    ensures
        month_as_read(y, m) == (y, m),
{
}

/// Days since 1970-01-01 of the date `y`-`m`-`d` (negative before it).
/// A day number past the end of the month counts on into the next ones.
pub fn days_from_civil(y: i32, m: u32, d: u32) -> (r: i64)
    requires
        m <= 2 ==> y > i32::MIN,
    ensures
        1 <= m <= 12 ==> r == day_number(y as int, m as int, d as int),
        r == day_number(month_as_read(y as int, m as int).0, month_as_read(y as int, m as int).1, d as int),
{
    let ghost year = y as int;
    let y = if m <= 2 {
        y - 1
    } else {
        y
    } as i64;
    let era = if y >= 0 {
        y
    } else {
        y - 399
    } / 400;
    let yoe = y - era * 400;
    let mp = (m as i64 + 9) % 12;
    let doy = (153 * mp + 2) / 5 + d as i64 - 1;
    let doe = yoe * 365 + yoe / 4 - yoe / 100 + doy;
    proof {
        assert(era == (y as int) / 400);
        lemma_era(y as int, era as int, yoe as int);
        // The month as read, counted from the March-based year `y`.
        let (cy, cm) = month_as_read(year, m as int);
        assert(1 <= cm <= 12);
        assert((if cm <= 2 { cy - 1 } else { cy }) == y);
        assert((cm + 9) % 12 == mp);
        lemma_march(cy, cm, d as int);
    }
    era * 146_097 + doe - 719_468
}

/// The date of day number `z`: year, month (1 = January) and day of the
/// month. The year is given as an `i32`, cut to its low 32 bits where it
/// does not fit.
pub fn civil_from_days(z: i64) -> (r: (i32, u32, u32))
    requires
        z <= i64::MAX - 719_468,
    ensures
        r.1 as int == date_of(z as int).1,
        r.2 as int == date_of(z as int).2,
        r.0 == date_of(z as int).0 as i32,
        i32::MIN <= date_of(z as int).0 <= i32::MAX ==> r.0 as int == date_of(z as int).0,
{
    let z = z + 719_468;
    let era = if z >= 0 {
        z
    } else {
        z - 146_096
    } / 146_097;
    let doe = z - era * 146_097;
    proof {
        assert(era == (z as int) / 146_097);
    }
    let yoe = (doe - doe / 1460 + doe / 36_524 - doe / 146_096) / 365;
    let y = yoe + era * 400;
    let doy = doe - (365 * yoe + yoe / 4 - yoe / 100);
    let mp = (5 * doy + 2) / 153;
    let d = (doy - (153 * mp + 2) / 5 + 1) as u32;
    let m = if mp < 10 {
        mp + 3
    } else {
        mp - 9
    } as u32;
    proof {
        lemma_date_of_parts(z - 719_468, era as int, doe as int);
    }
    (
        (if m <= 2 {
            y + 1
        } else {
            y
        }) as i32,
        m,
        d,
    )
}

/// Day of the week of day number `days`: 0 is Sunday. 1970-01-01 was a
/// Thursday.
pub fn weekday(days: i64) -> (r: usize)
    requires
        days <= i64::MAX - 4,
    ensures
        r as int == weekday_of(days as int),
        r < 7,
{
    let w = (days + 4) % 7;
    (if w < 0 {
        w + 7
    } else {
        w
    }) as usize
}

} // verus!
