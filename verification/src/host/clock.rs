//! Seconds since the Unix epoch → the engine's [`Clock`] (UTC; no date library).
use vstd::prelude::*;
use crate::engine::clock::Clock;

verus! {

/// The civil date `(year, month, day)` of day number `z` since 1970-01-01, by Howard
/// Hinnant's days-to-civil algorithm (for days on or after the epoch).
pub open spec fn civil(z: int) -> (int, int, int) {
    let z = z + 719_468;
    let era = z / 146_097;
    let doe = z - era * 146_097;
    let yoe = (doe - doe / 1_460 + doe / 36_524 - doe / 146_096) / 365;
    let y = yoe + era * 400;
    let doy = doe - (365 * yoe + yoe / 4 - yoe / 100);
    let mp = (5 * doy + 2) / 153;
    let d = doy - (153 * mp + 2) / 5 + 1;
    let m = if mp < 10 { mp + 3 } else { mp - 9 };
    (if m <= 2 { y + 1 } else { y }, m, d)
}

/// The day number since 1970-01-01 of a civil date, by Howard Hinnant's
/// civil-to-days algorithm (for years from 1 on).
pub open spec fn days_of(y: int, m: int, d: int) -> int {
    let y = if m <= 2 { y - 1 } else { y };
    let era = y / 400;
    let yoe = y - era * 400;
    let doy = (153 * (if m > 2 { m - 3 } else { m + 9 }) + 2) / 5 + d - 1;
    let doe = yoe * 365 + yoe / 4 - yoe / 100 + doy;
    era * 146_097 + doe - 719_468
}

/// The clock of `secs` seconds after the epoch: the hour of the day, the civil month
/// and day, and the day of the year (0 on January 1st).
pub open spec fn clock_at(secs: u64) -> Clock {
    let days = secs / 86_400;
    let (y, m, d) = civil(days as int);
    Clock {
        yday: (days - days_of(y, 1, 1)) as i32,
        hour: ((secs % 86_400) / 3_600) as u8,
        month: m as u8,
        day: d as u8,
    }
}

/// Days-to-civil for days on or after the epoch.
fn civil_from_days(z: i64) -> (r: (i64, u8, u8))
    requires
        0 <= z <= 0x1_0000_0000_0000,
    ensures
        r.0 == civil(z as int).0,
        r.1 as int == civil(z as int).1,
        r.2 as int == civil(z as int).2,
        1 <= r.1 <= 12,
        1 <= r.2 <= 31,
        1970 <= r.0 <= 1_000_000_000_000,
{
    let z = z + 719_468;
    let era = z / 146_097;
    let doe = z - era * 146_097;
    let yoe = (doe - doe / 1_460 + doe / 36_524 - doe / 146_096) / 365;
    let y = yoe + era * 400;
    let doy = doe - (365 * yoe + yoe / 4 - yoe / 100);
    proof {
        assert(0 <= doe < 146_097);
        assert(0 <= yoe <= 399);
        assert(0 <= doy <= 365);
    }
    let mp = (5 * doy + 2) / 153;
    let d = doy - (153 * mp + 2) / 5 + 1;
    proof {
        assert(0 <= mp <= 11);
        assert(1 <= d <= 31);
    }
    let m: i64 = if mp < 10 { mp + 3 } else { mp - 9 };
    proof {
        assert(era >= 4);
    }
    (if m <= 2 { y + 1 } else { y }, m as u8, d as u8)
}

/// Civil-to-days for years from 1 on.
fn days_from_civil(y: i64, m: u8, d: u8) -> (r: i64)
    requires
        1 <= y <= 1_000_000_000_000,
        1 <= m <= 12,
        1 <= d <= 31,
    ensures
        r == days_of(y as int, m as int, d as int),
{
    let y = if m <= 2 { y - 1 } else { y };
    let era = y / 400;
    let yoe = y - era * 400;
    let m = m as i64;
    let d = d as i64;
    let doy = (153 * (if m > 2 { m - 3 } else { m + 9 }) + 2) / 5 + d - 1;
    let doe = yoe * 365 + yoe / 4 - yoe / 100 + doy;
    era * 146_097 + doe - 719_468
}

/// The clock `secs` seconds after the Unix epoch (UTC).
pub fn from_unix(secs: u64) -> (c: Clock)
    ensures
        c == clock_at(secs),
        c.hour <= 23,
        1 <= c.month <= 12,
        1 <= c.day <= 31,
{
    let days = (secs / 86_400) as i64;
    let hour = ((secs % 86_400) / 3_600) as u8;
    let (y, m, d) = civil_from_days(days);
    let yday = (days - days_from_civil(y, 1, 1)) as i32;
    Clock { yday, hour, month: m, day: d }
}

} // verus!
