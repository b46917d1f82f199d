//! The proleptic Gregorian calendar as a mathematical model: leap years,
//! month lengths, the day number of a date (days since 1970-01-01) and the
//! date of a day number, with the facts that tie them together.
use vstd::prelude::*;

verus! {

/// Whether `y` is a leap year: divisible by 4, except centuries that are
/// not divisible by 400.
pub open spec fn is_leap_year(y: int) -> bool {
    (y % 4 == 0 && y % 100 != 0) || y % 400 == 0
}

/// Number of days in year `y`.
pub open spec fn year_length(y: int) -> int {
    if is_leap_year(y) {
        366
    } else {
        365
    }
}

/// Number of days in month `m` (1 = January) of year `y`.
pub open spec fn month_length(y: int, m: int) -> int {
    if m == 2 {
        if is_leap_year(y) {
            29
        } else {
            28
        }
    } else if m == 4 || m == 6 || m == 9 || m == 11 {
        30
    } else {
        31
    }
}

/// `(y, m, d)` names a day of the calendar: a month from 1 to 12 and a day
/// within that month.
pub open spec fn is_valid_date(y: int, m: int, d: int) -> bool {
    1 <= m <= 12 && 1 <= d <= month_length(y, m)
}

/// Days of year `y` that come before the first of month `m`.
pub open spec fn days_before_month(y: int, m: int) -> int
    decreases m,
{
    if m <= 1 {
        0
    } else {
        days_before_month(y, m - 1) + month_length(y, m - 1)
    }
}

/// Days from 1970-01-01 to January 1 of year `y` (negative before 1970).
pub open spec fn days_before_year(y: int) -> int
    decreases (if y < 1970 {
        1970 - y
    } else {
        y - 1970
    }),
{
    if y == 1970 {
        0
    } else if y > 1970 {
        days_before_year(y - 1) + year_length(y - 1)
    } else {
        days_before_year(y + 1) - year_length(y)
    }
}

/// The day number of `(y, m, d)`: days since 1970-01-01, which is day 0.
/// A day past the end of its month simply counts on.
pub open spec fn day_number(y: int, m: int, d: int) -> int {
    days_before_year(y) + days_before_month(y, m) + d - 1
}

/// The date whose day number is `z`.
pub open spec fn date_of(z: int) -> (int, int, int) {
    choose|t: (int, int, int)| is_valid_date(t.0, t.1, t.2) && day_number(t.0, t.1, t.2) == z
}

/// The date that follows `(y, m, d)` on the calendar.
pub open spec fn next_date(y: int, m: int, d: int) -> (int, int, int) {
    if d < month_length(y, m) {
        (y, m, d + 1)
    } else if m < 12 {
        (y, m + 1, 1)
    } else {
        (y + 1, 1, 1)
    }
}

/// Day of the week of day number `z`: 0 is Sunday, and day 0
/// (1970-01-01) was a Thursday.
pub open spec fn weekday_of(z: int) -> int {
    (z + 4) % 7
}

// ── Closed forms ──────────────────────────────────────────────────────────

/// Leap years among 1..=y (for y >= 0; for other y it keeps the same
/// differences).
pub open spec fn leap_count(y: int) -> int {
    y / 4 - y / 100 + y / 400
}

/// The day number of March 1 of year `ym`, plus the days of the
/// March-based year before its month `mp` (0 = March, 11 = February of the
/// next year), plus `d - 1`.
pub open spec fn march_day_number(ym: int, mp: int, d: int) -> int {
    365 * ym + leap_count(ym) + (153 * mp + 2) / 5 + d - 1 - 719468
}

/// Going from `y - 1` to `y`, the leap count grows by one exactly when `y`
/// is a leap year.
pub proof fn lemma_leap_count_step(y: int)
    ensures
        leap_count(y) == leap_count(y - 1) + (if is_leap_year(y) {
            1int
        } else {
            0int
        }),
{
    assert(y % 100 == 0 ==> y % 4 == 0);
    assert(y % 400 == 0 ==> y % 100 == 0);
}

proof fn lemma_days_before_year_closed(y: int)
    ensures
        days_before_year(y) == 365 * (y - 1970) + leap_count(y - 1) - 477,
    decreases (if y < 1970 {
        1970 - y
    } else {
        y - 1970
    }),
{
    if y == 1970 {
    } else if y > 1970 {
        lemma_days_before_year_closed(y - 1);
        lemma_leap_count_step(y - 1);
    } else {
        lemma_days_before_year_closed(y + 1);
        lemma_leap_count_step(y);
    }
}

/// A year's first day comes `year_length(y)` days after the one before it.
pub proof fn lemma_year_step(y: int)
    ensures
        days_before_year(y + 1) == days_before_year(y) + year_length(y),
{
    lemma_days_before_year_closed(y);
    lemma_days_before_year_closed(y + 1);
    lemma_leap_count_step(y);
}

/// The first days of months, written out.
pub proof fn lemma_days_before_month_values(y: int)
    ensures
        days_before_month(y, 1) == 0,
        days_before_month(y, 2) == 31,
        forall|m: int|
            3 <= m <= 12 ==> #[trigger] days_before_month(y, m) == 59 + (if is_leap_year(y) {
                1int
            } else {
                0int
            }) + (153 * (m - 3) + 2) / 5,
        days_before_month(y, 13) == year_length(y),
{
    reveal_with_fuel(days_before_month, 13);
    assert forall|m: int|
        3 <= m <= 12 implies #[trigger] days_before_month(y, m) == 59 + (if is_leap_year(y) {
            1int
        } else {
            0int
        }) + (153 * (m - 3) + 2) / 5 by {
        reveal_with_fuel(days_before_month, 13);
        assert(m == 3 || m == 4 || m == 5 || m == 6 || m == 7 || m == 8 || m == 9 || m == 10 || m
            == 11 || m == 12);
    }
}

/// Counting from March: the day number of `(y, m, d)` for a month from 1 to
/// 12, computed from the March-based year that holds it.
pub proof fn lemma_march(y: int, m: int, d: int)
    requires
        1 <= m <= 12,
    ensures
        march_day_number(
            if m <= 2 {
                y - 1
            } else {
                y
            },
            (m + 9) % 12,
            d,
        ) == day_number(y, m, d),
{
    lemma_days_before_year_closed(y);
    lemma_days_before_month_values(y);
    lemma_leap_count_step(y);
}

/// Splitting a year into 400-year eras: each era holds 146097 days.
pub proof fn lemma_era(ym: int, era: int, yoe: int)
    requires
        ym == 400 * era + yoe,
        0 <= yoe < 400,
    ensures
        era * 146097 + 365 * yoe + yoe / 4 - yoe / 100 == 365 * ym + leap_count(ym),
{
    assert(ym / 4 == 100 * era + yoe / 4);
    assert(ym / 100 == 4 * era + yoe / 100);
    assert(ym / 400 == era);
}

/// The first day of each year of an era: `era_year_start(k)` days from the
/// era's first March 1 to that of its year `k`.
pub open spec fn era_year_start(k: int) -> int {
    365 * k + k / 4 - k / 100 + k / 400
}

/// The year of its era that day `doe` of an era falls in.
pub open spec fn year_of_era(doe: int) -> int {
    (doe - doe / 1460 + doe / 36524 - doe / 146096) / 365
}

#[verifier::spinoff_prover]
#[verifier::rlimit(50)]
proof fn lemma_year_of_era(doe: int)
    requires
        0 <= doe <= 146096,
    ensures
        0 <= year_of_era(doe) <= 399,
        era_year_start(year_of_era(doe)) <= doe < era_year_start(year_of_era(doe) + 1),
{
}

/// The month of a March-based year that its day `doy` falls in.
proof fn lemma_month_of_year(doy: int)
    requires
        0 <= doy <= 365,
    ensures
        0 <= (5 * doy + 2) / 153 <= 11,
        (153 * ((5 * doy + 2) / 153) + 2) / 5 <= doy,
        doy < (153 * ((5 * doy + 2) / 153 + 1) + 2) / 5,
{
}

// ── Order and uniqueness ──────────────────────────────────────────────────

proof fn lemma_days_before_month_mono(y: int, m1: int, m2: int)
    requires
        m1 <= m2,
    ensures
        days_before_month(y, m1) <= days_before_month(y, m2),
    decreases m2 - m1,
{
    if m1 < m2 {
        lemma_days_before_month_mono(y, m1, m2 - 1);
    }
}

proof fn lemma_days_before_year_mono(y1: int, y2: int)
    requires
        y1 <= y2,
    ensures
        days_before_year(y1) <= days_before_year(y2),
    decreases y2 - y1,
{
    if y1 < y2 {
        lemma_days_before_year_mono(y1, y2 - 1);
        lemma_year_step(y2 - 1);
    }
}

/// A valid date's day number lies within its year and within its month.
proof fn lemma_within(y: int, m: int, d: int)
    requires
        is_valid_date(y, m, d),
    ensures
        days_before_year(y) <= day_number(y, m, d) < days_before_year(y + 1),
        days_before_month(y, m) <= day_number(y, m, d) - days_before_year(y) < days_before_month(
            y,
            m + 1,
        ),
{
    lemma_year_step(y);
    lemma_days_before_month_mono(y, m + 1, 13);
    lemma_days_before_month_values(y);
}

/// Distinct valid dates have distinct day numbers.
pub proof fn lemma_day_number_injective(a: (int, int, int), b: (int, int, int))
    requires
        is_valid_date(a.0, a.1, a.2),
        is_valid_date(b.0, b.1, b.2),
        day_number(a.0, a.1, a.2) == day_number(b.0, b.1, b.2),
    ensures
        a == b,
{
    lemma_within(a.0, a.1, a.2);
    lemma_within(b.0, b.1, b.2);
    if a.0 < b.0 {
        lemma_days_before_year_mono(a.0 + 1, b.0);
    } else if b.0 < a.0 {
        lemma_days_before_year_mono(b.0 + 1, a.0);
    } else if a.1 < b.1 {
        lemma_days_before_month_mono(a.0, a.1 + 1, b.1);
    } else if b.1 < a.1 {
        lemma_days_before_month_mono(a.0, b.1 + 1, a.1);
    }
}

/// Day `doy` of the March-based year `ym` (0 = March 1) as a date of the
/// calendar.
pub open spec fn march_date(ym: int, doy: int) -> (int, int, int) {
    let mp = (5 * doy + 2) / 153;
    let d = doy - (153 * mp + 2) / 5 + 1;
    let m = if mp < 10 {
        mp + 3
    } else {
        mp - 9
    };
    let y = if m <= 2 {
        ym + 1
    } else {
        ym
    };
    (y, m, d)
}

/// Day `doe` of an era falls in its year `yoe`, on day `doy` of that year,
/// which is shorter than the year: 366 days when the February that ends it
/// has a leap day.
proof fn lemma_day_of_era(doe: int)
    requires
        0 <= doe <= 146096,
    ensures
        0 <= year_of_era(doe) <= 399,
        0 <= doe - era_year_start(year_of_era(doe)),
        doe - era_year_start(year_of_era(doe)) < 365 + (if is_leap_year(year_of_era(doe) + 1) {
            1int
        } else {
            0int
        }),
        era_year_start(year_of_era(doe)) == 365 * year_of_era(doe) + year_of_era(doe) / 4
            - year_of_era(doe) / 100,
{
    let yoe = year_of_era(doe);
    lemma_year_of_era(doe);
    lemma_leap_count_step(yoe + 1);
}

proof fn lemma_leap_in_era(ym: int, era: int, yoe: int)
    requires
        ym == 400 * era + yoe,
    ensures
        is_leap_year(yoe + 1) == is_leap_year(ym + 1),
{
    assert((ym + 1) % 4 == (yoe + 1) % 4);
    assert((ym + 1) % 100 == (yoe + 1) % 100);
    assert((ym + 1) % 400 == (yoe + 1) % 400);
}

/// Every day of a March-based year is a valid date, and its day number is
/// counted from March 1.
proof fn lemma_march_date(ym: int, doy: int)
    requires
        0 <= doy,
        doy < 365 + (if is_leap_year(ym + 1) {
            1int
        } else {
            0int
        }),
    ensures
        is_valid_date(march_date(ym, doy).0, march_date(ym, doy).1, march_date(ym, doy).2),
        day_number(march_date(ym, doy).0, march_date(ym, doy).1, march_date(ym, doy).2)
            == 365 * ym + leap_count(ym) + doy - 719468,
{
    lemma_month_of_year(doy);
    let mp = (5 * doy + 2) / 153;
    let (y, m, d) = march_date(ym, doy);
    assert(is_valid_date(y, m, d)) by {
        assert(mp == 0 || mp == 1 || mp == 2 || mp == 3 || mp == 4 || mp == 5 || mp == 6 || mp == 7
            || mp == 8 || mp == 9 || mp == 10 || mp == 11);
    }
    assert((m + 9) % 12 == mp);
    lemma_march(y, m, d);
}

/// The March-based algorithm finds, for each day number, the date it
/// names: `z + 719468` counts days from 0000-03-01, split into 400-year eras
/// of 146097 days, years of the era, and days of the year.
pub proof fn lemma_date_of_parts(z: int, era: int, doe: int)
    requires
        doe == z + 719468 - era * 146097,
        0 <= doe <= 146096,
    ensures
        ({
            let yoe = year_of_era(doe);
            let doy = doe - (365 * yoe + yoe / 4 - yoe / 100);
            let t = march_date(400 * era + yoe, doy);
            &&& is_valid_date(t.0, t.1, t.2)
            &&& date_of(z) == t
            &&& day_number(date_of(z).0, date_of(z).1, date_of(z).2) == z
        }),
{
    let yoe = year_of_era(doe);
    lemma_day_of_era(doe);
    let doy = doe - (365 * yoe + yoe / 4 - yoe / 100);
    let ym = 400 * era + yoe;
    lemma_leap_in_era(ym, era, yoe);
    lemma_march_date(ym, doy);
    lemma_era(ym, era, yoe);
    let w = march_date(ym, doy);
    let t = date_of(z);
    assert(is_valid_date(t.0, t.1, t.2) && day_number(t.0, t.1, t.2) == z);
    lemma_day_number_injective(t, w);
}

/// Every day number names exactly one valid date.
pub proof fn lemma_date_of(z: int)
    ensures
        is_valid_date(date_of(z).0, date_of(z).1, date_of(z).2),
        day_number(date_of(z).0, date_of(z).1, date_of(z).2) == z,
{
    let era = (z + 719468) / 146097;
    lemma_date_of_parts(z, era, z + 719468 - era * 146097);
}

} // verus!

verus! {

// ── Laws ──────────────────────────────────────────────────────────────────

/// Round trip: the date of a valid date's day number is that date.
pub proof fn lemma_round_trip(y: int, m: int, d: int)
    requires
        is_valid_date(y, m, d),
    ensures
        date_of(day_number(y, m, d)) == (y, m, d),
{
    let z = day_number(y, m, d);
    lemma_date_of(z);
    lemma_day_number_injective(date_of(z), (y, m, d));
}

/// Round trip the other way: the day number of the date of `z` is `z`.
pub proof fn lemma_day_number_of_date(z: int)
    ensures
        day_number(date_of(z).0, date_of(z).1, date_of(z).2) == z,
{
    lemma_date_of(z);
}

/// One day later is the next date of the calendar.
pub proof fn lemma_next_day(z: int)
    ensures
        date_of(z + 1) == next_date(date_of(z).0, date_of(z).1, date_of(z).2),
{
    lemma_date_of(z);
    let (y, m, d) = date_of(z);
    let n = next_date(y, m, d);
    lemma_days_before_month_values(y);
    if d < month_length(y, m) {
    } else if m < 12 {
    } else {
        lemma_year_step(y);
        lemma_days_before_month_values(y + 1);
    }
    assert(is_valid_date(n.0, n.1, n.2));
    assert(day_number(n.0, n.1, n.2) == z + 1);
    lemma_round_trip(n.0, n.1, n.2);
}

/// Day 0 is Thursday, January 1, 1970.
pub proof fn lemma_epoch()
    ensures
        date_of(0) == (1970int, 1int, 1int),
        weekday_of(0) == 4,
{
    assert(day_number(1970, 1, 1) == 0) by {
        reveal_with_fuel(days_before_month, 2);
    }
    lemma_round_trip(1970, 1, 1);
}

/// Weekdays run from 0 to 6, advance by one each day and repeat each week.
pub proof fn lemma_weekday_cycle(z: int)
    ensures
        0 <= weekday_of(z) < 7,
        weekday_of(z + 1) == (weekday_of(z) + 1) % 7,
        weekday_of(z + 7) == weekday_of(z),
{
}

} // verus!
