//! Wall-clock time: the firmware's calendar reading turned into a chrono
//! date-time and into nanoseconds since the Unix epoch, and the user
//! library's inverse from nanoseconds.
use vstd::prelude::*;
use chrono::{NaiveDate, NaiveDateTime};

verus! {

/// A reading of the firmware clock.
#[derive(Clone, Copy, Debug, PartialEq, Eq, Structural)]
pub struct Time {
    pub year: u16,
    pub month: u8,
    pub day: u8,
    pub hour: u8,
    pub minute: u8,
    pub second: u8,
    pub nanosecond: u32,
}

#[verifier::external_type_specification]
#[verifier::external_body]
pub struct ExNaiveDate(NaiveDate);

#[verifier::external_type_specification]
#[verifier::external_body]
pub struct ExNaiveDateTime(NaiveDateTime);

/// The first and last years a chrono date can hold.
pub open spec fn min_year() -> int {
    -262143
}

pub open spec fn max_year() -> int {
    262142
}

/// Leap years of the proleptic Gregorian calendar.
pub open spec fn is_leap(y: int) -> bool {
    y % 4 == 0 && (y % 100 != 0 || y % 400 == 0)
}

/// The number of days of month `m` (from 1) of year `y`.
pub open spec fn days_in_month(y: int, m: int) -> int {
    if m == 2 {
        if is_leap(y) {
            29
        } else {
            28
        }
    } else if m == 4 || m == 6 || m == 9 || m == 11 {
        30
    } else {
        31
    }
}

/// The calendar date exists and its year is in chrono's range.
pub open spec fn valid_ymd(y: int, m: int, d: int) -> bool {
    &&& min_year() <= y <= max_year()
    &&& 1 <= m <= 12
    &&& 1 <= d <= days_in_month(y, m)
}

/// A time of day that chrono accepts: a nanosecond part of a second or more
/// stands for a leap second, after second 59 only.
pub open spec fn valid_hms_nano(h: int, mi: int, s: int, ns: int) -> bool {
    &&& h < 24 && mi < 60 && s < 60
    &&& ns < 2_000_000_000
    &&& ns >= 1_000_000_000 ==> s == 59
}

/// What chrono builds from calendar fields: the date-time, when the date
/// exists and the time of day is valid.
pub uninterp spec fn chrono_date_time(y: i32, m: u32, d: u32, h: u32, mi: u32, s: u32, ns: u32) -> Option<NaiveDateTime>;

/// The days of the proleptic Gregorian calendar before January 1 of year
/// `y`, counted from January 1 of year 1.
pub open spec fn days_before_year(y: int) -> int {
    365 * (y - 1) + (y - 1) / 4 - (y - 1) / 100 + (y - 1) / 400
}

/// The days of year `y` before month `m` (from 1).
pub open spec fn days_before_month(y: int, m: int) -> int
    decreases m,
{
    if m <= 1 {
        0
    } else {
        days_before_month(y, m - 1) + days_in_month(y, m - 1)
    }
}

/// The seconds from the Unix epoch to the given date and time of day.
pub open spec fn unix_seconds(y: int, m: int, d: int, h: int, mi: int, s: int) -> int {
    (days_before_year(y) + days_before_month(y, m) + d - 719_163) * 86_400 + h * 3600 + mi * 60 + s
}

pub open spec fn fits_i64(v: int) -> bool {
    i64::MIN <= v <= i64::MAX
}

/// The nanoseconds since the Unix epoch of the fields, as chrono counts
/// them: none unless the date exists and the time of day is valid, and none
/// when the count, or the whole seconds it is built from (one second fewer
/// before the epoch), does not fit in an `i64`.
pub open spec fn unix_nanos_spec(y: i32, m: u32, d: u32, h: u32, mi: u32, s: u32, ns: u32) -> Option<i64> {
    if valid_ymd(y as int, m as int, d as int) && valid_hms_nano(h as int, mi as int, s as int, ns as int) {
        let t = unix_seconds(y as int, m as int, d as int, h as int, mi as int, s as int);
        let v = t * 1_000_000_000 + ns;
        let whole = if t < 0 { (t + 1) * 1_000_000_000 } else { t * 1_000_000_000 };
        if fits_i64(whole) && fits_i64(v) {
            Some(v as i64)
        } else {
            None
        }
    } else {
        None
    }
}

/// The date-time that chrono builds `secs` seconds and `nsecs` nanoseconds
/// after the Unix epoch, when it can.
pub uninterp spec fn chrono_from_timestamp(secs: i64, nsecs: u32) -> Option<NaiveDateTime>;

/// The Unix epoch, 1970-01-01 00:00:00, as a chrono date-time.
pub open spec fn epoch_date_time() -> NaiveDateTime {
    chrono_date_time(1970, 1, 1, 0, 0, 0, 0)->Some_0
}

/// `NaiveDate::from_ymd_opt`: a date, exactly when the calendar day exists
/// and the year is in range (which date it is stays opaque).
#[verifier::external_body]
fn naive_date_from_ymd(y: i32, m: u32, d: u32) -> (r: Option<NaiveDate>)
    ensures
        r is Some <==> valid_ymd(y as int, m as int, d as int),
{
    NaiveDate::from_ymd_opt(y, m, d)
}

/// `NaiveDate::from_ymd_opt` then `NaiveDate::and_hms_nano_opt`: the
/// date-time of the fields (named `chrono_date_time`), present exactly when
/// the date exists and the time of day is valid.
#[verifier::external_body]
fn naive_date_time_of(y: i32, m: u32, d: u32, h: u32, mi: u32, s: u32, ns: u32) -> (r: Option<NaiveDateTime>)
    ensures
        r == chrono_date_time(y, m, d, h, mi, s, ns),
        r is Some <==> (valid_ymd(y as int, m as int, d as int) && valid_hms_nano(h as int, mi as int, s as int, ns as int)),
{
    NaiveDate::from_ymd_opt(y, m, d).and_then(|date| date.and_hms_nano_opt(h, mi, s, ns))
}

/// The date-time of a date and a time of day to the second, when the date
/// exists and the time is valid (as `ls` shows an entry's times).
pub fn date_time_of(y: u16, mo: u8, d: u8, h: u8, mi: u8, s: u8) -> (r: Option<NaiveDateTime>)
    ensures
        r == chrono_date_time(y as i32, mo as u32, d as u32, h as u32, mi as u32, s as u32, 0),
        r is Some <==> (valid_ymd(y as int, mo as int, d as int) && valid_hms_nano(h as int, mi as int, s as int, 0)),
{
    naive_date_time_of(y as i32, mo as u32, d as u32, h as u32, mi as u32, s as u32, 0)
}

/// `NaiveDateTime::default`: the Unix epoch.
#[verifier::external_body]
fn naive_date_time_default() -> (r: NaiveDateTime)
    ensures
        Some(r) == chrono_date_time(1970, 1, 1, 0, 0, 0, 0),
{
    NaiveDateTime::default()
}

/// `NaiveDate::from_ymd_opt`, `NaiveDate::and_hms_nano_opt`, then
/// `DateTime::timestamp_nanos_opt` of the UTC reading: the nanoseconds since
/// the Unix epoch of the fields (see `unix_nanos_spec`): the day count from
/// the Gregorian calendar less that of 1970-01-01, times 86400, plus the
/// seconds of the day, in nanoseconds plus the nanosecond part.
#[verifier::external_body]
fn unix_nanos(y: i32, m: u32, d: u32, h: u32, mi: u32, s: u32, ns: u32) -> (r: Option<i64>)
    ensures
        r == unix_nanos_spec(y, m, d, h, mi, s, ns),
{
    NaiveDate::from_ymd_opt(y, m, d).and_then(|date| date.and_hms_nano_opt(h, mi, s, ns)).and_then(
        |dt| dt.and_utc().timestamp_nanos_opt(),
    )
}

/// `NaiveDateTime::from_timestamp_opt`: the date-time `secs` seconds and
/// `nsecs` nanoseconds after the Unix epoch (named `chrono_from_timestamp`).
/// A nanosecond part of two seconds or more is refused; one under a second
/// with a number of seconds inside ten thousand million either way is taken.
#[verifier::external_body]
fn naive_date_time_from_timestamp(secs: i64, nsecs: u32) -> (r: Option<NaiveDateTime>)
    ensures
        r == chrono_from_timestamp(secs, nsecs),
        nsecs >= 2_000_000_000 ==> r is None,
        nsecs < 1_000_000_000 && -10_000_000_000 <= secs <= 10_000_000_000 ==> r is Some,
{
    #[allow(deprecated)]
    NaiveDateTime::from_timestamp_opt(secs, nsecs)
}

/// The calendar fields that a clock reading stands for: its own, except
/// that a day that does not exist is replaced by 1970-01-01.
pub open spec fn clock_fields(t: Time) -> (i32, u32, u32, u32, u32, u32, u32) {
    if valid_ymd(t.year as int, t.month as int, t.day as int) {
        (t.year as i32, t.month as u32, t.day as u32, t.hour as u32, t.minute as u32, t.second as u32, t.nanosecond)
    } else {
        (1970i32, 1u32, 1u32, t.hour as u32, t.minute as u32, t.second as u32, t.nanosecond)
    }
}

/// The fields of a reading, with the default day for a day that does not
/// exist (see `clock_fields`).
fn reading_fields(t: &Time) -> (f: (i32, u32, u32, u32, u32, u32, u32))
    ensures
        f == clock_fields(*t),
{
    let ok = naive_date_from_ymd(t.year as i32, t.month as u32, t.day as u32).is_some();
    if ok {
        (t.year as i32, t.month as u32, t.day as u32, t.hour as u32, t.minute as u32, t.second as u32, t.nanosecond)
    } else {
        (1970i32, 1u32, 1u32, t.hour as u32, t.minute as u32, t.second as u32, t.nanosecond)
    }
}

/// The date-time of a clock reading: its day (1970-01-01 when the day does
/// not exist) at its time of day, or the Unix epoch when the time of day is
/// invalid.
pub fn now(t: &Time) -> (r: NaiveDateTime)
    ensures
        r == (match chrono_date_time(clock_fields(*t).0, clock_fields(*t).1, clock_fields(*t).2,
            clock_fields(*t).3, clock_fields(*t).4, clock_fields(*t).5, clock_fields(*t).6) {
            Some(dt) => dt,
            None => epoch_date_time(),
        }),
{
    let f = reading_fields(t);
    match naive_date_time_of(f.0, f.1, f.2, f.3, f.4, f.5, f.6) {
        Some(dt) => dt,
        None => naive_date_time_default(),
    }
}

/// The clock system call: the nanoseconds since the Unix epoch of the
/// reading's date-time (see `now`), or 0 when there are none or they do not
/// fit in an `i64`.
pub fn sys_clock(t: &Time) -> (r: i64)
    ensures
        r == (match unix_nanos_spec(clock_fields(*t).0, clock_fields(*t).1, clock_fields(*t).2,
            clock_fields(*t).3, clock_fields(*t).4, clock_fields(*t).5, clock_fields(*t).6) {
            Some(n) => n,
            None => 0,
        }),
{
    let f = reading_fields(t);
    match unix_nanos(f.0, f.1, f.2, f.3, f.4, f.5, f.6) {
        Some(n) => n,
        None => 0,
    }
}

/// How the user library splits nanoseconds since the epoch: the truncated
/// quotient by a thousand million, and the remainder taken to 32 bits (a
/// negative remainder wraps round).
pub open spec fn split_spec(time: i64) -> (i64, u32) {
    if time >= 0 {
        ((time / 1_000_000_000) as i64, (time % 1_000_000_000) as u32)
    } else if (-time) % 1_000_000_000 == 0 {
        ((-((-time) / 1_000_000_000)) as i64, 0u32)
    } else {
        ((-((-time) / 1_000_000_000)) as i64, (0x1_0000_0000 - (-time) % 1_000_000_000) as u32)
    }
}

/// Splits nanoseconds since the epoch the way the user library does: the
/// truncated quotient by a thousand million, and the remainder taken to 32
/// bits (a negative remainder wraps round).
pub fn split_timestamp(time: i64) -> (r: (i64, u32))
    ensures
        r == split_spec(time),
        time >= 0 ==> r.0 == time / 1_000_000_000 && r.1 == time % 1_000_000_000,
        time < 0 ==> r.0 == -((-time) / 1_000_000_000) && (if (-time) % 1_000_000_000 == 0 {
            r.1 == 0
        } else {
            r.1 == 0x1_0000_0000 - (-time) % 1_000_000_000
        }),
{
    let secs = time / 1_000_000_000;
    let rem = time % 1_000_000_000;
    let nsecs = rem as u32;
    proof {
        if time < 0 {
            assert(-9_223_372_036 <= secs <= 0);
        }
    }
    assert(rem >= 0 ==> nsecs == rem) by (bit_vector)
        requires
            rem < 1_000_000_000,
            nsecs == rem as u32,
    ;
    assert(rem < 0 ==> nsecs == 0x1_0000_0000 + rem) by (bit_vector)
        requires
            rem > -1_000_000_000,
            nsecs == rem as u32,
    ;
    (secs, nsecs)
}

/// The user library's time: the date-time of nanoseconds since the epoch
/// (split as `split_spec` says), or the epoch itself when chrono refuses the
/// split.
pub fn time_from_nanos(time: i64) -> (r: NaiveDateTime)
    ensures
        r == (match chrono_from_timestamp(split_spec(time).0, split_spec(time).1) {
            Some(dt) => dt,
            None => epoch_date_time(),
        }),
{
    let (secs, nsecs) = split_timestamp(time);
    match naive_date_time_from_timestamp(secs, nsecs) {
        Some(dt) => dt,
        None => naive_date_time_default(),
    }
}

} // verus!
