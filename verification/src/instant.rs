//! UTC instants, the proleptic Gregorian calendar, and the calls into
//! `chrono` that convert, parse and format them.
//!
//! An [`Instant`] holds what a `chrono::DateTime<Utc>` holds: whole seconds
//! since the Unix epoch and a sub-second part in nanoseconds (which reaches
//! past one second only on a leap second).
use vstd::prelude::*;

verus! {

/// A UTC instant: seconds since 1970-01-01T00:00:00Z plus nanoseconds.
#[derive(Clone, Copy, Debug, PartialEq, Eq, Structural)]
pub struct Instant {
    pub secs: i64,
    pub nanos: u32,
}

/// First second that `chrono` can represent (-262143-01-01T00:00:00Z).
pub const MIN_SECS: i64 = -8334601228800;

/// Last second that `chrono` can represent (262142-12-31T23:59:59Z).
pub const MAX_SECS: i64 = 8210266876799;

/// First and last year of `chrono`'s calendar.
pub const MIN_YEAR: i32 = -262143;

pub const MAX_YEAR: i32 = 262142;

impl Instant {
    /// Within `chrono`'s range; a sub-second part of a second or more only
    /// on the last second of a minute (a leap second).
    pub open spec fn valid(self) -> bool {
        &&& MIN_SECS <= self.secs <= MAX_SECS
        &&& self.nanos < 2_000_000_000
        &&& (self.nanos >= 1_000_000_000 ==> self.secs % 60 == 59)
    }

    /// Milliseconds since the epoch, as `DateTime::timestamp_millis` counts them.
    pub open spec fn millis(self) -> int {
        self.secs * 1000 + self.nanos / 1_000_000
    }
}

pub open spec fn is_leap_year(y: int) -> bool {
    (y % 4 == 0 && y % 100 != 0) || y % 400 == 0
}

pub open spec fn days_in_month(y: int, m: int) -> int {
    if m == 2 {
        if is_leap_year(y) {
            29
        } else {
            28
        }
    } else if m == 4 || m == 6 || m == 9 || m == 11 {
        30
    } else {
        31
    }
}

/// A calendar date that `chrono::NaiveDate::from_ymd_opt` accepts.
pub open spec fn valid_ymd(y: int, m: int, d: int) -> bool {
    &&& MIN_YEAR <= y <= MAX_YEAR
    &&& 1 <= m <= 12
    &&& 1 <= d <= days_in_month(y, m)
}

/// A wall-clock time that `NaiveDate::and_hms_opt` accepts.
pub open spec fn valid_hms(h: int, mi: int, s: int) -> bool {
    0 <= h < 24 && 0 <= mi < 60 && 0 <= s < 60
}

/// Days from 1970-01-01 to the given proleptic Gregorian date.
pub open spec fn days_from_civil(y: int, m: int, d: int) -> int {
    let yy = if m <= 2 {
        y - 1
    } else {
        y
    };
    let era = yy / 400;
    let yoe = yy - era * 400;
    let mp = if m > 2 {
        m - 3
    } else {
        m + 9
    };
    let doy = (153 * mp + 2) / 5 + d - 1;
    let doe = yoe * 365 + yoe / 4 - yoe / 100 + doy;
    era * 146097 + doe - 719468
}

/// Seconds from the epoch to a wall-clock time read as UTC.
pub open spec fn civil_secs(y: int, m: int, d: int, h: int, mi: int, s: int) -> int {
    days_from_civil(y, m, d) * 86400 + h * 3600 + mi * 60 + s
}

/// The UTC instant of a wall-clock time `off_min` minutes east of UTC, or
/// `None` when the date or time is invalid or the instant is out of range.
pub open spec fn civil_to_utc(y: int, m: int, d: int, h: int, mi: int, s: int, off_min: int) -> Option<Instant> {
    if valid_ymd(y, m, d) && valid_hms(h, mi, s) {
        let t = civil_secs(y, m, d, h, mi, s) - off_min * 60;
        if MIN_SECS <= t <= MAX_SECS {
            Some(Instant { secs: t as i64, nanos: 0 })
        } else {
            None
        }
    } else {
        None
    }
}

/// Whether the wall-clock time is a valid date and time whose shift by the
/// offset leaves `chrono`'s range.
pub open spec fn civil_shift_overflows(y: int, m: int, d: int, h: int, mi: int, s: int, off_min: int) -> bool {
    valid_ymd(y, m, d) && valid_hms(h, mi, s) && !(MIN_SECS <= civil_secs(y, m, d, h, mi, s)
        - off_min * 60 <= MAX_SECS)
}

/// The result of `chrono::DateTime::parse_from_rfc3339` on a string,
/// converted to UTC.
pub uninterp spec fn rfc3339_instant(s: Seq<char>) -> Option<Instant>;

/// The text `DateTime<Utc>::format("%Y-%m-%dT%H:%M:%SZ")` writes for an instant.
pub uninterp spec fn z_text(i: Instant) -> Seq<char>;

/// The text `DateTime<Utc>::to_rfc3339()` writes for an instant.
pub uninterp spec fn rfc3339_text(i: Instant) -> Seq<char>;

/// The UTC instant of a wall-clock time at a fixed offset east of UTC.
///
/// Calls `NaiveDate::from_ymd_opt`, `NaiveDate::and_hms_opt` and
/// `NaiveDateTime::checked_sub_signed`; the contract claims that these accept
/// exactly the valid dates, the times with hour < 24, minute < 60, second < 60,
/// and results within the calendar's range, and that the result is the usual
/// proleptic Gregorian count of seconds.
#[verifier::external_body]
pub(crate) fn utc_from_civil(y: i32, m: u32, d: u32, h: u32, mi: u32, s: u32, off_min: i32) -> (r: Option<Instant>)
    requires
        -100_000 <= off_min <= 100_000,
    ensures
        r == civil_to_utc(y as int, m as int, d as int, h as int, mi as int, s as int, off_min as int),
{
    let naive = chrono::NaiveDate::from_ymd_opt(y, m, d)?.and_hms_opt(h, mi, s)?;
    let utc = naive.checked_sub_signed(chrono::TimeDelta::minutes(off_min as i64))?;
    let dt = utc.and_utc();
    Some(Instant { secs: dt.timestamp(), nanos: dt.timestamp_subsec_nanos() })
}

/// Whether `NaiveDate::from_ymd_opt` and `NaiveDate::and_hms_opt` accept a
/// wall-clock time: exactly the valid dates and the times with hour < 24,
/// minute < 60 and second < 60.
#[verifier::external_body]
pub(crate) fn civil_valid(y: i32, m: u32, d: u32, h: u32, mi: u32, s: u32) -> (r: bool)
    ensures
        r == (valid_ymd(y as int, m as int, d as int) && valid_hms(h as int, mi as int, s as int)),
{
    match chrono::NaiveDate::from_ymd_opt(y, m, d) {
        Some(date) => date.and_hms_opt(h, mi, s).is_some(),
        None => false,
    }
}

/// `chrono::DateTime::parse_from_rfc3339`, converted to UTC. Nothing is
/// claimed of which strings it accepts; an accepted string gives an instant
/// that `chrono` can represent.
#[verifier::external_body]
pub(crate) fn parse_rfc3339_utc(s: &str) -> (r: Option<Instant>)
    ensures
        r == rfc3339_instant(s@),
        r matches Some(i) ==> i.valid(),
{
    let dt = chrono::DateTime::parse_from_rfc3339(s).ok()?.with_timezone(&chrono::Utc);
    Some(Instant { secs: dt.timestamp(), nanos: dt.timestamp_subsec_nanos() })
}

/// `DateTime<Utc>::format("%Y-%m-%dT%H:%M:%SZ")` of a valid instant.
#[verifier::external_body]
pub(crate) fn format_z(i: Instant) -> (r: String)
    requires
        i.valid(),
    ensures
        r@ == z_text(i),
{
    let dt = chrono::DateTime::from_timestamp(i.secs, i.nanos).unwrap();
    dt.format("%Y-%m-%dT%H:%M:%SZ").to_string()
}

/// `DateTime<Utc>::to_rfc3339()` of a valid instant.
#[verifier::external_body]
pub(crate) fn format_rfc3339(i: Instant) -> (r: String)
    requires
        i.valid(),
    ensures
        r@ == rfc3339_text(i),
{
    let dt = chrono::DateTime::from_timestamp(i.secs, i.nanos).unwrap();
    dt.to_rfc3339()
}

/// Milliseconds since the epoch (`DateTime::timestamp_millis`).
pub fn to_millis(i: Instant) -> (r: i64)
    requires
        i.valid(),
    ensures
        r == i.millis(),
{
    i.secs * 1000 + (i.nanos / 1_000_000) as i64
}

} // verus!
