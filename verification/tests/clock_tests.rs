use chrono::NaiveDate;
use ysos::clock::{now, split_timestamp, sys_clock, time_from_nanos, Time};

fn t(year: u16, month: u8, day: u8, hour: u8, minute: u8, second: u8, nanosecond: u32) -> Time {
    Time { year, month, day, hour, minute, second, nanosecond }
}

#[test]
fn clock_reading_to_nanoseconds() {
    assert_eq!(sys_clock(&t(1970, 1, 1, 0, 0, 1, 5)), 1_000_000_005);
    assert_eq!(sys_clock(&t(2024, 2, 29, 12, 30, 0, 0)), 1_709_209_800_000_000_000);
    // a day that does not exist falls back to 1970-01-01 at the given time
    assert_eq!(sys_clock(&t(2023, 2, 29, 1, 0, 0, 0)), 3_600_000_000_000);
    // an invalid time of day falls back to the epoch
    assert_eq!(sys_clock(&t(2024, 1, 1, 24, 0, 0, 0)), 0);
    // too far in the future for an i64 of nanoseconds
    assert_eq!(sys_clock(&t(2300, 1, 1, 0, 0, 0, 0)), 0);
    let expected = NaiveDate::from_ymd_opt(2001, 9, 9).unwrap().and_hms_nano_opt(1, 46, 40, 7).unwrap();
    assert_eq!(now(&t(2001, 9, 9, 1, 46, 40, 7)), expected);
}

#[test]
fn nanoseconds_to_date_time() {
    assert_eq!(split_timestamp(1_500_000_000), (1, 500_000_000));
    assert_eq!(split_timestamp(-1_500_000_000), (-1, 3_794_967_296));
    assert_eq!(split_timestamp(-2_000_000_000), (-2, 0));
    let dt = time_from_nanos(1_000_000_000_000_000_000);
    assert_eq!(dt, NaiveDate::from_ymd_opt(2001, 9, 9).unwrap().and_hms_opt(1, 46, 40).unwrap());
    assert_eq!(time_from_nanos(-1_500_000_000), chrono::NaiveDateTime::default());
}

#[test]
fn entry_dates_to_the_second() {
    let dt = ysos::clock::date_time_of(2024, 2, 29, 12, 30, 5).unwrap();
    assert_eq!(dt.to_string(), "2024-02-29 12:30:05");
    assert!(ysos::clock::date_time_of(2023, 2, 29, 0, 0, 0).is_none());
    assert!(ysos::clock::date_time_of(2023, 1, 1, 24, 0, 0).is_none());
}

#[test]
fn clock_nanos_at_the_ends_of_the_i64_range() {
    assert_eq!(sys_clock(&t(1677, 9, 21, 0, 12, 44, 0)), -9_223_372_036_000_000_000);
    assert_eq!(sys_clock(&t(1677, 9, 21, 0, 12, 43, 200_000_000)), -9_223_372_036_800_000_000);
    assert_eq!(sys_clock(&t(1677, 9, 21, 0, 12, 43, 0)), 0);
    assert_eq!(sys_clock(&t(2262, 4, 11, 23, 47, 16, 0)), 9_223_372_036_000_000_000);
    assert_eq!(sys_clock(&t(2262, 4, 11, 23, 47, 17, 0)), 0);
    assert_eq!(sys_clock(&t(1969, 12, 31, 23, 59, 59, 500_000_000)), -500_000_000);
}
