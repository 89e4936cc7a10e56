//! Calendar times as they are stored in archives.

use vstd::prelude::*;

use crate::model::Timestamp;

verus! {

/// Whether the year has a 29th of February.
pub open spec fn is_leap_year(year: int) -> bool {
    year % 4 == 0 && (year % 100 != 0 || year % 400 == 0)
}

/// The number of days in a month.
pub open spec fn days_in_month(year: int, month: int) -> int {
    if month == 2 {
        if is_leap_year(year) {
            29
        } else {
            28
        }
    } else if month == 4 || month == 6 || month == 9 || month == 11 {
        30
    } else {
        31
    }
}

/// Days from 1970-01-01 to the first day of a year.
pub open spec fn days_before_year(year: int) -> int {
    let past = year - 1;
    365 * past + past / 4 - past / 100 + past / 400 - 719162
}

/// Days from the first day of a year to the first day of a month.
pub open spec fn days_before_month(year: int, month: int) -> int
    decreases month,
{
    if month <= 1 {
        0
    } else {
        days_before_month(year, month - 1) + days_in_month(year, month - 1)
    }
}

/// A date and a time of day.
pub struct Civil {
    pub year: int,
    pub month: int,
    pub day: int,
    pub hour: int,
    pub minute: int,
    pub second: int,
}

impl Civil {
    /// Whether the date is on the calendar and the time on the clock.
    pub open spec fn exists_in_calendar(self) -> bool {
        &&& 1 <= self.month <= 12
        &&& 1 <= self.day <= days_in_month(self.year, self.month)
        &&& 0 <= self.hour < 24
        &&& 0 <= self.minute < 60
        &&& 0 <= self.second < 60
    }

    /// Seconds from 1970-01-01 00:00:00 to this time, both taken as UTC.
    pub open spec fn unix_seconds(self) -> int {
        (days_before_year(self.year) + days_before_month(self.year, self.month) + self.day - 1)
            * 86400 + self.hour * 3600 + self.minute * 60 + self.second
    }
}

/// The number of days in a year.
pub open spec fn days_in_year(year: int) -> int {
    if is_leap_year(year) {
        366
    } else {
        365
    }
}

/// Twelve months make up a year.
proof fn months_fill_the_year(year: int)
    ensures
        days_before_month(year, 13) == days_in_year(year),
{
    reveal_with_fuel(days_before_month, 13);
}

/// A year begins where the one before it ends.
proof fn years_follow_one_another(year: int)
    ensures
        days_before_year(year + 1) == days_before_year(year) + days_in_year(year),
{
    fourth_years(year);
    hundredth_years(year);
    four_hundredth_years(year);
    round_years(year);
    assert(days_before_year(year + 1) == 365 * year + year / 4 - year / 100 + year / 400 - 719162);
}

/// A year that 400 divides is one that 100 divides, and such a year is one that 4 divides.
proof fn round_years(year: int)
    ensures
        year % 400 == 0 ==> year % 100 == 0,
        year % 100 == 0 ==> year % 4 == 0,
{
}

/// The quarter of the years grows with every fourth one.
proof fn fourth_years(year: int)
    ensures
        year / 4 - (year - 1) / 4 == if year % 4 == 0 {
            1int
        } else {
            0
        },
{
}

/// The hundredth part of the years grows with every hundredth one.
proof fn hundredth_years(year: int)
    ensures
        year / 100 - (year - 1) / 100 == if year % 100 == 0 {
            1int
        } else {
            0
        },
{
}

/// The four-hundredth part of the years grows with every four-hundredth one.
proof fn four_hundredth_years(year: int)
    ensures
        year / 400 - (year - 1) / 400 == if year % 400 == 0 {
            1int
        } else {
            0
        },
{
}

/// Later months begin later, by at least the length of the earlier one.
proof fn months_are_ordered(year: int, a: int, b: int)
    requires
        1 <= a < b,
    ensures
        days_before_month(year, a) + days_in_month(year, a) <= days_before_month(year, b),
    decreases b,
{
    if a + 1 < b {
        months_are_ordered(year, a, b - 1);
    }
}

/// Later years begin later, by at least the length of the earlier one.
proof fn years_are_ordered(a: int, b: int)
    requires
        a < b,
    ensures
        days_before_year(a) + days_in_year(a) <= days_before_year(b),
    decreases b - a,
{
    years_follow_one_another(b - 1);
    if a + 1 < b {
        years_are_ordered(a, b - 1);
    }
}

/// A day of the calendar falls within its year.
proof fn day_falls_in_its_year(at: Civil)
    requires
        at.exists_in_calendar(),
    ensures
        0 <= days_before_month(at.year, at.month) + at.day - 1 < days_in_year(at.year),
{
    months_fill_the_year(at.year);
    months_are_ordered(at.year, at.month, 13);
    if 1 < at.month {
        months_are_ordered(at.year, 1, at.month);
    }
}

/// The days from 1970 to a date.
spec fn day_number(at: Civil) -> int {
    days_before_year(at.year) + days_before_month(at.year, at.month) + at.day - 1
}

/// The same number of days is the same date.
proof fn dates_are_distinct(a: Civil, b: Civil)
    requires
        a.exists_in_calendar(),
        b.exists_in_calendar(),
        day_number(a) == day_number(b),
    ensures
        a.year == b.year,
        a.month == b.month,
        a.day == b.day,
{
    day_falls_in_its_year(a);
    day_falls_in_its_year(b);
    if a.year < b.year {
        years_are_ordered(a.year, b.year);
    } else if b.year < a.year {
        years_are_ordered(b.year, a.year);
    } else if a.month < b.month {
        months_are_ordered(a.year, a.month, b.month);
    } else if b.month < a.month {
        months_are_ordered(a.year, b.month, a.month);
    }
}

/// The same number of seconds is the same number of days and the same time of day.
proof fn days_and_clock(x: int, y: int, s: int, t: int)
    requires
        x * 86400 + s == y * 86400 + t,
        0 <= s < 86400,
        0 <= t < 86400,
    ensures
        x == y,
        s == t,
{
}

/// No two dates and times of the calendar are the same number of seconds away from 1970, so a point
/// in time has one date and time.
pub proof fn calendar_times_are_distinct(a: Civil, b: Civil)
    requires
        a.exists_in_calendar(),
        b.exists_in_calendar(),
        a.unix_seconds() == b.unix_seconds(),
    ensures
        a == b,
{
    let s = a.hour * 3600 + a.minute * 60 + a.second;
    let t = b.hour * 3600 + b.minute * 60 + b.second;
    days_and_clock(day_number(a), day_number(b), s, t);
    dates_are_distinct(a, b);
}

/// The date and time with the given numbers.
pub open spec fn civil(
    year: i32,
    month: u8,
    day: u8,
    hour: u8,
    minute: u8,
    second: u8,
) -> Civil {
    Civil {
        year: year as int,
        month: month as int,
        day: day as int,
        hour: hour as int,
        minute: minute as int,
        second: second as int,
    }
}

/// Seconds since 1970 of a UTC date and time, where there is such a date and time.
///
/// Trusted: `time::Date::from_calendar_date` and `time::Time::from_hms` accept exactly the dates of
/// the Gregorian calendar and the times of a day, and `OffsetDateTime::unix_timestamp` counts the
/// seconds from the epoch.
#[verifier::external_body]
fn utc_seconds(year: i32, month: u8, day: u8, hour: u8, minute: u8, second: u8) -> (r: Option<i64>)
    requires
        1980 <= year <= 2107,
    ensures
        r.is_some() == civil(year, month, day, hour, minute, second).exists_in_calendar(),
        r.is_some() ==> r.unwrap() == civil(year, month, day, hour, minute, second).unix_seconds(),
{
    let month = time::Month::try_from(month).ok()?;
    let date = time::Date::from_calendar_date(year, month, day).ok()?;
    let clock = time::Time::from_hms(hour, minute, second).ok()?;
    Some(date.with_time(clock).assume_utc().unix_timestamp())
}

/// The date and time that an MS-DOS date word and time word stand for.
pub open spec fn dos_civil(date: u16, time: u16) -> Civil {
    Civil {
        year: 1980 + date as int / 512,
        month: date as int / 32 % 16,
        day: date as int % 32,
        hour: time as int / 2048,
        minute: time as int / 32 % 64,
        second: time as int % 32 * 2,
    }
}

/// The point in time that a date and time stand for, where they are on the calendar.
pub open spec fn civil_timestamp(at: Civil) -> Option<Timestamp> {
    if at.exists_in_calendar() {
        Some(Timestamp { secs: at.unix_seconds() as i64, nanos: 0 })
    } else {
        None
    }
}

/// Convert an MS-DOS date word and time word, taken as UTC. Invalid dates yield `None`.
pub fn dos_words_to_timestamp(date: u16, time: u16) -> (r: Option<Timestamp>)
    ensures
        r == civil_timestamp(dos_civil(date, time)),
{
    let year: i32 = 1980 + (date / 512) as i32;
    let month: u8 = (date / 32 % 16) as u8;
    let day: u8 = (date % 32) as u8;
    let hour: u8 = (time / 2048) as u8;
    let minute: u8 = (time / 32 % 64) as u8;
    let second: u8 = (time % 32) as u8 * 2;
    match utc_seconds(year, month, day, hour, minute, second) {
        Some(secs) => Some(Timestamp { secs, nanos: 0 }),
        None => None,
    }
}

/// The date and time that a 32-bit MS-DOS value stands for: the date in its upper half, the time
/// in its lower half.
pub open spec fn dos_value_civil(dos: u32) -> Civil {
    dos_civil((dos as int / 65536) as u16, (dos as int % 65536) as u16)
}

/// Convert a DOS/FAT timestamp (as stored by RAR file headers), taken as UTC. Invalid dates yield
/// `None`.
pub fn dos_time_to_system_time(dos: u32) -> (r: Option<Timestamp>)
    ensures
        r == civil_timestamp(dos_value_civil(dos)),
{
    dos_words_to_timestamp((dos / 65536) as u16, (dos % 65536) as u16)
}

/// The point in time that a Windows file time stands for: a count of 100-nanosecond steps from
/// 1601-01-01, which lies 11644473600 seconds before 1970.
pub open spec fn file_time(ticks: u64) -> Timestamp {
    Timestamp {
        secs: (ticks as int / 10_000_000 - 11_644_473_600) as i64,
        nanos: (ticks as int % 10_000_000 * 100) as u32,
    }
}

/// Convert a Windows file time.
pub fn file_time_to_timestamp(ticks: u64) -> (r: Timestamp)
    ensures
        r == file_time(ticks),
{
    Timestamp {
        secs: (ticks / 10_000_000) as i64 - 11_644_473_600,
        nanos: ((ticks % 10_000_000) * 100) as u32,
    }
}

/// The point in time a number of seconds after 1970, where it can be represented.
pub open spec fn seconds_after_epoch(secs: u64) -> Option<Timestamp> {
    if secs <= i64::MAX {
        Some(Timestamp { secs: secs as i64, nanos: 0 })
    } else {
        None
    }
}

/// The point in time a number of seconds after 1970, where it can be represented.
pub fn timestamp_after_epoch(secs: u64) -> (r: Option<Timestamp>)
    ensures
        r == seconds_after_epoch(secs),
{
    if secs <= i64::MAX as u64 {
        Some(Timestamp { secs: secs as i64, nanos: 0 })
    } else {
        None
    }
}

} // verus!
