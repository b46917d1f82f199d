use moon::dates::{civil_from_days, days_from_civil, weekday};
use moon::labels::WEEKDAYS;

#[test]
fn dates_round_trip_and_know_their_weekday() {
    let d = days_from_civil(2026, 9, 15);
    assert_eq!(civil_from_days(d), (2026, 9, 15));
    assert_eq!(WEEKDAYS[weekday(d)], "Tue");
    assert_eq!(civil_from_days(days_from_civil(2024, 2, 29) + 1), (2024, 3, 1));
    assert_eq!(civil_from_days(0), (1970, 1, 1));
}

fn is_leap(y: i32) -> bool {
    (y % 4 == 0 && y % 100 != 0) || y % 400 == 0
}

fn month_len(y: i32, m: u32) -> u32 {
    match m {
        2 => {
            if is_leap(y) {
                29
            } else {
                28
            }
        }
        4 | 6 | 9 | 11 => 30,
        _ => 31,
    }
}

#[test]
fn every_date_round_trips_and_days_follow_each_other() {
    let mut expected = days_from_civil(1599, 12, 31);
    for y in 1600..2401 {
        for m in 1..13u32 {
            for d in 1..=month_len(y, m) {
                let z = days_from_civil(y, m, d);
                assert_eq!(z, expected + 1);
                assert_eq!(civil_from_days(z), (y, m, d));
                expected = z;
            }
        }
    }
}

#[test]
fn negative_years_round_trip() {
    for y in -1201..-799 {
        for m in 1..13u32 {
            let z = days_from_civil(y, m, 1);
            assert_eq!(civil_from_days(z), (y, m, 1));
            let last = month_len(y, m);
            assert_eq!(civil_from_days(z + last as i64 - 1), (y, m, last));
        }
    }
}

#[test]
fn known_day_numbers() {
    assert_eq!(days_from_civil(1970, 1, 1), 0);
    assert_eq!(days_from_civil(1969, 12, 31), -1);
    assert_eq!(days_from_civil(2026, 9, 15), 20711);
    assert_eq!(days_from_civil(2000, 3, 1), 11017);
    assert_eq!(civil_from_days(-1), (1969, 12, 31));
    assert_eq!(civil_from_days(11016), (2000, 2, 29));
}

#[test]
fn next_day_crosses_months_years_and_leap_days() {
    assert_eq!(civil_from_days(days_from_civil(1999, 12, 31) + 1), (2000, 1, 1));
    assert_eq!(civil_from_days(days_from_civil(1900, 2, 28) + 1), (1900, 3, 1));
    assert_eq!(civil_from_days(days_from_civil(2000, 2, 28) + 1), (2000, 2, 29));
    assert_eq!(civil_from_days(days_from_civil(2023, 4, 30) + 1), (2023, 5, 1));
}

#[test]
fn months_outside_the_year_are_read_around_it() {
    assert_eq!(days_from_civil(2025, 13, 1), days_from_civil(2026, 1, 1));
    assert_eq!(days_from_civil(2025, 14, 3), days_from_civil(2026, 2, 3));
    assert_eq!(days_from_civil(2025, 0, 1), days_from_civil(2024, 12, 1));
    assert_eq!(days_from_civil(2025, 15, 1), days_from_civil(2025, 3, 1));
    assert_eq!(days_from_civil(2025, 1, 32), days_from_civil(2025, 2, 1));
}

#[test]
fn years_beyond_i32_are_cut_to_32_bits() {
    assert_eq!(civil_from_days(784351576776), (2147483647, 12, 31));
    assert_eq!(civil_from_days(784351576777), (-2147483648, 1, 1));
}

#[test]
fn weekdays_start_on_thursday_and_cycle() {
    assert_eq!(weekday(0), 4);
    assert_eq!(weekday(-1), 3);
    assert_eq!(weekday(3), 0);
    for z in -50i64..50 {
        assert!(weekday(z) < 7);
        assert_eq!(weekday(z + 7), weekday(z));
        assert_eq!(weekday(z + 1), (weekday(z) + 1) % 7);
    }
    assert_eq!(WEEKDAYS[weekday(days_from_civil(2000, 1, 1))], "Sat");
}
