//! Date and time fields of the SBS (BaseStation) text feed's timestamps.
//!
//! The calendar here is the feed's own coarse one: 365-day years and
//! 30-day months, with the month capped at 12 and the day at 28.
use vstd::prelude::*;

verus! {

/// The (year, month, day) the feed writes for `days` days after 1970-01-01.
pub open spec fn feed_date(days: u64) -> (u64, u64, u64) {
    let d = days % 365;
    let m = d / 30 + 1;
    let day = d % 30 + 1;
    (
        (1970 + days / 365) as u64,
        if m < 12 {
            m as u64
        } else {
            12
        },
        if day < 28 {
            day as u64
        } else {
            28
        },
    )
}

/// The feed's date for `days` days after the epoch.
pub fn epoch_days_to_date(days: u64) -> (r: (u64, u64, u64))
    ensures
        r == feed_date(days),
{
    let y = 1970 + days / 365;
    let d = days % 365;
    let m = d / 30 + 1;
    let day = d % 30 + 1;
    (y, if m < 12 {
        m
    } else {
        12
    }, if day < 28 {
        day
    } else {
        28
    })
}

/// The fields of a feed timestamp for `secs` seconds and `ms` milliseconds
/// after the epoch: year, month, day, hour, minute, second, millisecond.
pub open spec fn timestamp_fields(secs: u64, ms: u32) -> (u64, u64, u64, u64, u64, u64, u32) {
    let (y, mo, d) = feed_date(secs / 86400);
    let rem = secs % 86400;
    (y, mo, d, rem / 3600, (rem % 3600) / 60, rem % 60, ms)
}

/// The fields of the feed timestamp for a time after the epoch.
pub fn clock_fields(secs: u64, ms: u32) -> (r: (u64, u64, u64, u64, u64, u64, u32))
    ensures
        r == timestamp_fields(secs, ms),
{
    let days = secs / 86400;
    let rem = secs % 86400;
    let (y, mo, d) = epoch_days_to_date(days);
    (y, mo, d, rem / 3600, (rem % 3600) / 60, rem % 60, ms)
}

} // verus!
