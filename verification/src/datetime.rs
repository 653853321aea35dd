//! UTC date-times as chrono represents them: whole seconds since the Unix
//! epoch plus a sub-second part, within chrono's supported calendar range.

use vstd::prelude::*;

use chrono::{DateTime, TimeZone, Utc};

verus! {

/// The first year chrono's dates support.
pub open spec fn min_year() -> int {
    -262143
}

/// The last year chrono's dates support.
pub open spec fn max_year() -> int {
    262142
}

/// Leap years of the proleptic Gregorian calendar.
pub open spec fn is_leap_year(y: int) -> bool {
    y % 4 == 0 && (y % 100 != 0 || y % 400 == 0)
}

/// The number of days of month `m` (1 to 12) in year `y`.
pub open spec fn days_in_month(y: int, m: int) -> int {
    if m == 2 {
        if is_leap_year(y) { 29 } else { 28 }
    } else if m == 4 || m == 6 || m == 9 || m == 11 {
        30
    } else {
        31
    }
}

/// Days from 1970-01-01 to the given date of the proleptic Gregorian calendar.
pub open spec fn days_from_civil(y: int, m: int, d: int) -> int {
    let y2 = if m <= 2 { y - 1 } else { y };
    let era = y2 / 400;
    let yoe = y2 - era * 400;
    let doy = (153 * (if m > 2 { m - 3 } else { m + 9 }) + 2) / 5 + d - 1;
    let doe = yoe * 365 + yoe / 4 - yoe / 100 + doy;
    era * 146097 + doe - 719468
}

/// Whether the calendar date and wall-clock time exist in chrono's UTC calendar.
pub open spec fn valid_ymd_hms(y: int, mo: int, d: int, h: int, mi: int, s: int) -> bool {
    &&& min_year() <= y <= max_year()
    &&& 1 <= mo <= 12
    &&& 1 <= d <= days_in_month(y, mo)
    &&& 0 <= h < 24
    &&& 0 <= mi < 60
    &&& 0 <= s < 60
}

/// Seconds since the Unix epoch of a date and time.
pub open spec fn civil_timestamp(y: int, mo: int, d: int, h: int, mi: int, s: int) -> int {
    days_from_civil(y, mo, d) * 86400 + h * 3600 + mi * 60 + s
}

/// The timestamp of chrono's earliest UTC date-time (its first day, at midnight).
pub open spec fn min_timestamp() -> int {
    -8334601228800
}

/// The timestamp of the last whole second of chrono's latest UTC day.
pub open spec fn max_timestamp() -> int {
    8210266876799
}

/// Whether chrono can represent the given count of seconds since the epoch.
pub open spec fn timestamp_in_range(secs: int) -> bool {
    min_timestamp() <= secs <= max_timestamp()
}

/// The extreme timestamps are those of the first and last days of the supported years.
pub proof fn lemma_timestamp_range_bounds()
    ensures
        min_timestamp() == civil_timestamp(min_year(), 1, 1, 0, 0, 0),
        max_timestamp() == civil_timestamp(max_year(), 12, 31, 23, 59, 59),
{
    assert(min_timestamp() == civil_timestamp(min_year(), 1, 1, 0, 0, 0));
    assert(max_timestamp() == civil_timestamp(max_year(), 12, 31, 23, 59, 59));
}

/// chrono's `Utc.with_ymd_and_hms(..)`, reduced to the timestamp of the single date-time
/// it gives. Claimed of chrono: a date-time exists exactly for the valid dates and times
/// of its proleptic Gregorian calendar, and its `timestamp()` counts the seconds since
/// 1970-01-01T00:00:00Z.
#[verifier::external_body]
fn chrono_utc_ymd_hms(year: i32, month: u32, day: u32, hour: u32, min: u32, sec: u32) -> (r:
    Option<i64>)
    ensures
        r is Some <==> valid_ymd_hms(year as int, month as int, day as int, hour as int, min as int, sec as int),
        r matches Some(t) ==> t == civil_timestamp(year as int, month as int, day as int, hour as int, min as int, sec as int),
{
    match Utc.with_ymd_and_hms(year, month, day, hour, min, sec) {
        chrono::LocalResult::Single(dt) => Some(dt.timestamp()),
        chrono::LocalResult::Ambiguous(dt, _) => Some(dt.timestamp()),
        chrono::LocalResult::None => None,
    }
}

/// chrono's `DateTime::<Utc>::from_timestamp(secs, nsecs)`, read back as its
/// `timestamp()` and `timestamp_subsec_nanos()`. Claimed of chrono: for a sub-second part
/// below one second, a date-time exists exactly when the seconds fall in its supported
/// range, and it keeps both parts.
#[verifier::external_body]
fn chrono_from_timestamp(secs: i64, nsecs: u32) -> (r: Option<(i64, u32)>)
    requires
        nsecs < 1_000_000_000,
    ensures
        r is Some <==> timestamp_in_range(secs as int),
        r matches Some(p) ==> p == (secs, nsecs),
{
    match DateTime::<Utc>::from_timestamp(secs, nsecs) {
        Some(dt) => Some((dt.timestamp(), dt.timestamp_subsec_nanos())),
        None => None,
    }
}

/// A point in time in UTC, as chrono's `DateTime<Utc>` holds it.
#[derive(Clone, Copy, Debug, PartialEq, Eq)]
pub struct UtcDateTime {
    secs: i64,
    nanos: u32,
}

impl View for UtcDateTime {
    /// Seconds since the epoch and the sub-second nanoseconds.
    type V = (int, int);

    closed spec fn view(&self) -> (int, int) {
        (self.secs as int, self.nanos as int)
    }
}

/// What a UTC date-time can be: a representable second and less than a second of nanoseconds.
pub open spec fn valid_datetime(v: (int, int)) -> bool {
    timestamp_in_range(v.0) && 0 <= v.1 < 1_000_000_000
}

impl UtcDateTime {
    #[verifier::type_invariant]
    closed spec fn wf(self) -> bool {
        timestamp_in_range(self.secs as int) && self.nanos < 1_000_000_000
    }

    /// The date-time `secs` seconds and `nanos` nanoseconds after the Unix epoch, or `None`
    /// when the nanoseconds reach a full second or chrono cannot represent the second.
    pub fn from_timestamp(secs: i64, nanos: u32) -> (r: Option<UtcDateTime>)
        ensures
            r is Some <==> valid_datetime((secs as int, nanos as int)),
            r matches Some(dt) ==> dt@ == (secs as int, nanos as int),
    {
        if nanos >= 1_000_000_000 {
            return None;
        }
        match chrono_from_timestamp(secs, nanos) {
            Some((s, n)) => Some(UtcDateTime { secs: s, nanos: n }),
            None => None,
        }
    }

    /// The date-time at the given calendar date and wall-clock time, or `None` when that
    /// date or time does not exist.
    pub fn from_ymd_hms(year: i32, month: u32, day: u32, hour: u32, min: u32, sec: u32) -> (r:
        Option<UtcDateTime>)
        ensures
            r is Some <==> valid_ymd_hms(year as int, month as int, day as int, hour as int, min as int, sec as int),
            r matches Some(dt) ==> dt@ == (civil_timestamp(year as int, month as int, day as int, hour as int, min as int, sec as int), 0int),
    {
        match chrono_utc_ymd_hms(year, month, day, hour, min, sec) {
            Some(t) => {
                proof {
                    lemma_civil_timestamp_in_range(year as int, month as int, day as int, hour as int, min as int, sec as int);
                }
                Some(UtcDateTime { secs: t, nanos: 0 })
            },
            None => None,
        }
    }

    /// Whole seconds since the Unix epoch.
    pub fn timestamp(&self) -> (r: i64)
        ensures
            r == self@.0,
            valid_datetime(self@),
    {
        proof {
            use_type_invariant(self);
        }
        self.secs
    }

    /// Nanoseconds past the whole second.
    pub fn subsec_nanos(&self) -> (r: u32)
        ensures
            r == self@.1,
            valid_datetime(self@),
    {
        proof {
            use_type_invariant(self);
        }
        self.nanos
    }

    /// Whether `self` lies strictly before `other`.
    pub fn is_before(&self, other: &UtcDateTime) -> (r: bool)
        ensures
            r == (self@.0 < other@.0 || (self@.0 == other@.0 && self@.1 < other@.1)),
    {
        self.secs < other.secs || (self.secs == other.secs && self.nanos < other.nanos)
    }
}

/// Valid dates and times have representable timestamps.
pub proof fn lemma_civil_timestamp_in_range(y: int, mo: int, d: int, h: int, mi: int, s: int)
    requires
        valid_ymd_hms(y, mo, d, h, mi, s),
    ensures
        timestamp_in_range(civil_timestamp(y, mo, d, h, mi, s)),
{
    let days = days_from_civil(y, mo, d);
    assert(-96465292 <= days <= 95026236);
}

} // verus!
