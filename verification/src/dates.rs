//! Calendar handling for the start boundary: validating a calendar day,
//! converting it — through the calendar library — to a millisecond Unix
//! timestamp, and encoding that timestamp as a snowflake.

use vstd::prelude::*;
use chrono::TimeZone;
use crate::DISCORD_EPOCH_MILLIS;
use crate::snowflake_of_millis;
use crate::snowflake_from_millis;

verus! {

/// True for the leap years of the proleptic Gregorian calendar.
pub open spec fn is_leap_year(year: int) -> bool {
    (year % 4 == 0 && year % 100 != 0) || year % 400 == 0
}

/// How many days the given month has in the given year.
pub open spec fn days_in_month(year: int, month: int) -> int
    recommends
        1 <= month <= 12,
{
    if month == 2 {
        if is_leap_year(year) {
            29
        } else {
            28
        }
    } else if month == 4 || month == 6 || month == 9 || month == 11 {
        30
    } else {
        31
    }
}

/// True when year, month and day name a real calendar day.
pub open spec fn valid_date(year: int, month: int, day: int) -> bool {
    1 <= month <= 12 && 1 <= day <= days_in_month(year, month)
}

/// Checks that year, month and day name a real calendar day.
pub fn is_valid_date(year: u32, month: u32, day: u32) -> (r: bool)
    ensures
        r == valid_date(year as int, month as int, day as int),
{
    if month < 1 || month > 12 {
        return false;
    }
    let dim: u32 = if month == 2 {
        if (year % 4 == 0 && year % 100 != 0) || year % 400 == 0 {
            29
        } else {
            28
        }
    } else if month == 4 || month == 6 || month == 9 || month == 11 {
        30
    } else {
        31
    };
    1 <= day && day <= dim
}

/// The millisecond Unix timestamp of midnight, UTC, on a calendar day; it
/// depends on the day alone.
pub uninterp spec fn millis_of_date(year: int, month: int, day: int) -> int;

/// Relies on chrono's `TimeZone::with_ymd_and_hms` and
/// `DateTime::timestamp_millis`: midnight of a valid calendar day in the
/// UTC zone, as milliseconds since the Unix epoch. A day in 2015 or later
/// maps at or after the Discord epoch, and a day before the year 10000
/// stays under 2^48 milliseconds.
#[verifier::external_body]
fn civil_midnight_millis(year: u32, month: u32, day: u32) -> (r: u64)
    requires
        2015 <= year <= 9999,
        valid_date(year as int, month as int, day as int),
    ensures
        r == millis_of_date(year as int, month as int, day as int),
        DISCORD_EPOCH_MILLIS <= r < 0x1000000000000,
{
    chrono::Utc.with_ymd_and_hms(year as i32, month, day, 0, 0, 0).unwrap().timestamp_millis()
        as u64
}

/// Computes the start-boundary snowflake for a calendar day: the snowflake
/// of the day's first millisecond, or nothing when the day starts after
/// `now_millis` (the current time, as milliseconds since the Unix epoch),
/// since a future day cannot bound the search.
pub fn start_boundary(year: u32, month: u32, day: u32, now_millis: u64) -> (r: Option<u64>)
    requires
        2015 <= year <= 9999,
        valid_date(year as int, month as int, day as int),
    ensures
        r is Some <==> millis_of_date(year as int, month as int, day as int) <= now_millis,
        r matches Some(v) ==> v == snowflake_of_millis(
            millis_of_date(year as int, month as int, day as int) as u64,
        ),
{
    let millis = civil_midnight_millis(year, month, day);
    if millis > now_millis {
        None
    } else {
        Some(snowflake_from_millis(millis))
    }
}

} // verus!
