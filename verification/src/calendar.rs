//! Calendar dates and clock times in UTC.

use vstd::prelude::*;

verus! {

/// Whether the year has a 29th of February.
pub open spec fn is_leap_year(year: int) -> bool {
    year % 4 == 0 && (year % 100 != 0 || year % 400 == 0)
}

/// The number of days of a month.
pub open spec fn days_in_month(year: int, month: int) -> int {
    if month == 2 {
        if is_leap_year(year) {
            29
        } else {
            28
        }
    } else if month == 4 || month == 6 || month == 9 || month == 11 {
        30
    } else {
        31
    }
}

/// The number of days of a year before the given month of it.
pub open spec fn days_before_month(year: int, month: int) -> int
    decreases month,
{
    if month <= 1 {
        0
    } else {
        days_before_month(year, month - 1) + days_in_month(year, month - 1)
    }
}

/// The number of days from the start of year zero to the start of a year.
pub open spec fn days_before_year(year: int) -> int {
    365 * year + (year + 3) / 4 - (year + 99) / 100 + (year + 399) / 400
}

/// Whether the calendar holds the date.
pub open spec fn is_date(year: int, month: int, day: int) -> bool {
    1 <= month <= 12 && 1 <= day <= days_in_month(year, month)
}

/// Whether the clock shows the time at some moment of a day.
pub open spec fn is_clock_time(hour: int, minute: int, second: int) -> bool {
    0 <= hour < 24 && 0 <= minute < 60 && 0 <= second < 60
}

/// The number of days from the first of January 1970 to a date.
pub open spec fn days_since_epoch(year: int, month: int, day: int) -> int {
    days_before_year(year) - days_before_year(1970) + days_before_month(year, month) + day - 1
}

/// The number of seconds from the start of 1970 to a moment.
pub open spec fn seconds_since_epoch(
    year: int,
    month: int,
    day: int,
    hour: int,
    minute: int,
    second: int,
) -> int {
    86400 * days_since_epoch(year, month, day) + 3600 * hour + 60 * minute + second
}

/// `time::Month::try_from`: the months are numbered from 1 to 12.
#[verifier::external_body]
pub(crate) fn month_exists(month: u8) -> (exists_: bool)
    ensures
        exists_ == (1 <= month <= 12),
{
    time::Month::try_from(month).is_ok()
}

/// `time::Date::from_calendar_date`, for a month that exists and a year of at
/// most four digits: a date where the month has that day in that year.
#[verifier::external_body]
pub(crate) fn date_exists(year: i32, month: u8, day: u8) -> (exists_: bool)
    requires
        0 <= year <= 9999,
        1 <= month <= 12,
    ensures
        exists_ == is_date(year as int, month as int, day as int),
{
    time::Date::from_calendar_date(year, time::Month::try_from(month).unwrap(), day).is_ok()
}

/// `time::Time::from_hms`: a time where the hour is below 24 and the minute
/// and the second are below 60.
#[verifier::external_body]
pub(crate) fn clock_time_exists(hour: u8, minute: u8, second: u8) -> (exists_: bool)
    ensures
        exists_ == is_clock_time(hour as int, minute as int, second as int),
{
    time::Time::from_hms(hour, minute, second).is_ok()
}

/// `time::OffsetDateTime::unix_timestamp` of a date with a time in UTC: the
/// seconds since the start of 1970.
#[verifier::external_body]
pub(crate) fn unix_timestamp(
    year: i32,
    month: u8,
    day: u8,
    hour: u8,
    minute: u8,
    second: u8,
) -> (seconds: i64)
    requires
        0 <= year <= 9999,
        is_date(year as int, month as int, day as int),
        is_clock_time(hour as int, minute as int, second as int),
    ensures
        seconds == seconds_since_epoch(
            year as int,
            month as int,
            day as int,
            hour as int,
            minute as int,
            second as int,
        ),
{
    let month = time::Month::try_from(month).unwrap();
    let date = time::Date::from_calendar_date(year, month, day).unwrap();
    let clock = time::Time::from_hms(hour, minute, second).unwrap();
    date.with_time(clock).assume_utc().unix_timestamp()
}

/// Days follow each other without a gap, within a month, from one month to the next
/// and from one year to the next, beginning with the first of January 1970. A year
/// has 365 days, and one more where its number can be divided by four, unless it
/// can be divided by a hundred and not by four hundred.
pub proof fn law_days_follow_each_other(year: int, month: int, day: int)
    requires
        year >= 0,
    ensures
        days_since_epoch(1970, 1, 1) == 0,
        days_since_epoch(year, month, day + 1) == days_since_epoch(year, month, day) + 1,
        1 <= month < 12 ==> days_since_epoch(year, month + 1, 1) == days_since_epoch(
            year,
            month,
            days_in_month(year, month),
        ) + 1,
        days_since_epoch(year + 1, 1, 1) == days_since_epoch(year, 12, 31) + 1,
        days_since_epoch(year + 1, 1, 1) - days_since_epoch(year, 1, 1) == if year % 4 == 0 && (year
            % 100 != 0 || year % 400 == 0) {
            366int
        } else {
            365int
        },
        month == 2 || month == 4 || month == 6 || month == 9 || month == 11 || days_in_month(
            year,
            month,
        ) == 31,
{
    reveal_with_fuel(days_before_month, 13);
}

/// A day has 86400 seconds, and the seconds of a day count from its start.
pub proof fn law_seconds_follow_each_other(
    year: int,
    month: int,
    day: int,
    hour: int,
    minute: int,
    second: int,
)
    ensures
        seconds_since_epoch(year, month, day, 24, 0, 0) == seconds_since_epoch(
            year,
            month,
            day + 1,
            0,
            0,
            0,
        ),
        seconds_since_epoch(year, month, day, hour, 60, 0) == seconds_since_epoch(
            year,
            month,
            day,
            hour + 1,
            0,
            0,
        ),
        seconds_since_epoch(year, month, day, hour, minute, 60) == seconds_since_epoch(
            year,
            month,
            day,
            hour,
            minute + 1,
            0,
        ),
        seconds_since_epoch(year, month, day, hour, minute, second + 1) == seconds_since_epoch(
            year,
            month,
            day,
            hour,
            minute,
            second,
        ) + 1,
{
}

} // verus!
