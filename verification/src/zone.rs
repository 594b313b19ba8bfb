//! Conversion between local wall-clock time and absolute instants.
//!
//! All activity timestamps are wall-clock readings in one fixed real-world
//! zone, Europe/Oslo.  Range queries against the store need the absolute
//! instant (seconds since the Unix epoch) that such a reading denotes; the
//! zone's daylight-saving rules make that mapping partial (a reading in a
//! spring transition gap denotes no instant, one in an autumn fold denotes
//! two).  The mapping itself comes from the chrono-tz zone database and is
//! only named here; everything around it is verified against those names.

use vstd::prelude::*;
use chrono::Datelike;
use chrono::Timelike;
use crate::time::LocalDateTime;

verus! {

/// Failure of a local-time conversion.
#[derive(Clone, Copy, Debug, PartialEq, Eq, Structural)]
pub enum TimeError {
    /// The wall-clock value falls in a daylight-saving gap or fold, or is
    /// otherwise not the reading of exactly one instant.
    AmbiguousOrInvalidLocalTime,
}

/// The fields of a date-time as one tuple, for use in the zone contracts.
pub open spec fn spec_fields(dt: LocalDateTime) -> (int, int, int, int, int, int) {
    (
        dt.year as int,
        dt.month as int,
        dt.day as int,
        dt.hour as int,
        dt.minute as int,
        dt.second as int,
    )
}

/// The instant (seconds since the Unix epoch) that the Oslo wall-clock
/// reading `(y, mo, d, h, mi, s)` denotes, when it denotes exactly one;
/// `None` when it falls in a transition gap or fold.  Fixed by the zone
/// database that the crate was built with.
pub uninterp spec fn oslo_epoch_of(y: int, mo: int, d: int, h: int, mi: int, s: int) -> Option<
    int,
>;

/// The Oslo wall-clock reading (year, month, day, hour, minute, second) of
/// the instant `t` seconds since the Unix epoch.  Fixed by the zone
/// database that the crate was built with.
pub uninterp spec fn oslo_civil_of(t: int) -> (int, int, int, int, int, int);

/// Relies on chrono's `NaiveDateTime::and_local_timezone` with chrono-tz's
/// `Europe::Oslo`: a `Single` mapping is the one instant whose Oslo
/// wall-clock reading is the given local time (so reading the result back
/// in Oslo yields the input), and `timestamp` is that instant in epoch
/// seconds.  The epoch bounds follow from zone offsets being under one day
/// (chrono's `FixedOffset` range): the instant lies within a day of the
/// reading taken as UTC, and the UTC epoch of year 2 is above
/// -62_104_060_800 while that of the end of year 9998 is below
/// 253_370_764_800.
#[verifier::external_body]
fn oslo_epoch_seconds(dt: &LocalDateTime) -> (r: Option<i64>)
    requires
        dt.well_formed(),
    ensures
        r is Some <==> oslo_epoch_of(
            dt.year as int,
            dt.month as int,
            dt.day as int,
            dt.hour as int,
            dt.minute as int,
            dt.second as int,
        ) is Some,
        r matches Some(t) ==> {
            &&& oslo_epoch_of(
                dt.year as int,
                dt.month as int,
                dt.day as int,
                dt.hour as int,
                dt.minute as int,
                dt.second as int,
            ) == Some(t as int)
            &&& oslo_civil_of(t as int) == spec_fields(*dt)
            &&& (dt.year >= 2 ==> t >= -62_104_150_000)
            &&& (dt.year <= 9998 ==> t <= 253_370_852_000)
        },
{
    let date = chrono::NaiveDate::from_ymd_opt(dt.year, dt.month as u32, dt.day as u32)?;
    let naive = date.and_hms_opt(dt.hour as u32, dt.minute as u32, dt.second as u32)?;
    let mapped = naive.and_local_timezone(chrono_tz::Europe::Oslo).single()?;
    Some(mapped.timestamp())
}

/// Relies on chrono's `DateTime::from_timestamp` and chrono-tz's
/// `Europe::Oslo`: the result is the Oslo wall-clock reading of the given
/// instant, a valid calendar date with in-range clock fields.  For the
/// accepted instant range the year stays within the supported span: the
/// reading lies within a day of the instant's UTC date, and the accepted
/// range keeps that between the start of year 1 and the end of year 9999.
#[verifier::external_body]
fn oslo_civil_at(t: i64) -> (r: LocalDateTime)
    requires
        -62_104_150_000 <= t <= 253_370_852_000,
    ensures
        spec_fields(r) == oslo_civil_of(t as int),
        r.well_formed(),
{
    let utc = chrono::DateTime::from_timestamp(t, 0).expect("instant in supported range");
    let local = utc.with_timezone(&chrono_tz::Europe::Oslo).naive_local();
    LocalDateTime {
        year: local.year(),
        month: local.month() as u8,
        day: local.day() as u8,
        hour: local.hour() as u8,
        minute: local.minute() as u8,
        second: local.second() as u8,
    }
}

/// Relies on chrono's `Utc::now` converted through chrono-tz's
/// `Europe::Oslo`: the result is a valid calendar reading of the current
/// clock (month 1..=12, day valid for the month, clock fields in range).
/// The value itself depends on the system clock, so nothing more is stated.
#[verifier::external_body]
fn oslo_now_fields() -> (r: (i32, u32, u32, u32, u32, u32))
    ensures
        1 <= r.1 <= 12,
        1 <= r.2 <= crate::time::spec_days_in_month(r.0 as int, r.1 as int),
        r.3 < 24,
        r.4 < 60,
        r.5 < 60,
{
    let local = chrono::Utc::now().with_timezone(&chrono_tz::Europe::Oslo).naive_local();
    (local.year(), local.month(), local.day(), local.hour(), local.minute(), local.second())
}

/// The absolute instant denoted by the local wall-clock reading `dt`,
/// for range comparisons against stored data.  Fails exactly when the
/// reading does not denote a unique instant (a daylight-saving gap or
/// fold); such a value is surfaced, never silently coerced.
pub fn to_absolute(dt: &LocalDateTime) -> (r: Result<i64, TimeError>)
    requires
        dt.well_formed(),
    ensures
        r is Ok <==> oslo_epoch_of(
            dt.year as int,
            dt.month as int,
            dt.day as int,
            dt.hour as int,
            dt.minute as int,
            dt.second as int,
        ) is Some,
        r matches Ok(t) ==> {
            &&& oslo_epoch_of(
                dt.year as int,
                dt.month as int,
                dt.day as int,
                dt.hour as int,
                dt.minute as int,
                dt.second as int,
            ) == Some(t as int)
            &&& oslo_civil_of(t as int) == spec_fields(*dt)
            &&& (dt.year >= 2 ==> t >= -62_104_150_000)
            &&& (dt.year <= 9998 ==> t <= 253_370_852_000)
        },
        r matches Err(e) ==> e == TimeError::AmbiguousOrInvalidLocalTime,
{
    match oslo_epoch_seconds(dt) {
        Some(t) => Ok(t),
        None => Err(TimeError::AmbiguousOrInvalidLocalTime),
    }
}

/// The local wall-clock reading of an absolute instant.
pub fn from_absolute(t: i64) -> (r: LocalDateTime)
    requires
        -62_104_150_000 <= t <= 253_370_852_000,
    ensures
        spec_fields(r) == oslo_civil_of(t as int),
        r.well_formed(),
{
    oslo_civil_at(t)
}

/// Converting a local reading to its absolute instant and back yields the
/// original reading: the two conversions invert each other wherever the
/// reading denotes a unique instant.  Returns `None` exactly on readings
/// in a transition gap or fold.  The first and last supported years stay
/// out only because the trusted epoch envelope has a day of slack on
/// either side.
pub fn absolute_round_trip(dt: &LocalDateTime) -> (r: Option<LocalDateTime>)
    requires
        dt.well_formed(),
        2 <= dt.year <= 9998,
    ensures
        r is Some <==> oslo_epoch_of(
            dt.year as int,
            dt.month as int,
            dt.day as int,
            dt.hour as int,
            dt.minute as int,
            dt.second as int,
        ) is Some,
        r matches Some(back) ==> back == *dt,
{
    match to_absolute(dt) {
        Ok(t) => {
            let back = from_absolute(t);
            assert(spec_fields(back) == spec_fields(*dt));
            Some(back)
        },
        Err(_) => None,
    }
}

/// Whether drawn clock fields are a calendar reading the model can hold:
/// the year in the supported span and every field a valid calendar value.
pub open spec fn spec_clock_fields_ok(f: (i32, u32, u32, u32, u32, u32)) -> bool {
    &&& 1 <= f.0 <= 9999
    &&& 1 <= f.1 <= 12
    &&& 1 <= f.2 <= crate::time::spec_days_in_month(f.0 as int, f.1 as int)
    &&& f.3 < 24
    &&& f.4 < 60
    &&& f.5 < 60
}

/// The local reading held in drawn clock fields (year, month, day, hour,
/// minute, second): exactly the fields, when they are a calendar reading
/// the model can hold, and `None` otherwise.
pub fn local_of_clock_fields(f: (i32, u32, u32, u32, u32, u32)) -> (r: Option<LocalDateTime>)
    ensures
        r is Some <==> spec_clock_fields_ok(f),
        r matches Some(dt) ==> {
            &&& dt.year == f.0
            &&& dt.month as u32 == f.1
            &&& dt.day as u32 == f.2
            &&& dt.hour as u32 == f.3
            &&& dt.minute as u32 == f.4
            &&& dt.second as u32 == f.5
            &&& dt.well_formed()
        },
{
    let (year, month, day, hour, minute, second) = f;
    if year < 1 || year > 9999 || month < 1 || month > 12 || day < 1 || hour > 23 || minute > 59
        || second > 59 {
        return None;
    }
    if day > crate::time::days_in_month(year, month as u8) as u32 {
        return None;
    }
    Some(
        LocalDateTime {
            year,
            month: month as u8,
            day: day as u8,
            hour: hour as u8,
            minute: minute as u8,
            second: second as u8,
        },
    )
}

/// The current wall-clock reading in the fixed local zone, truncated to
/// whole seconds: the clock fields drawn once and held as they are.
/// `None` only when the system clock reads a year outside the supported
/// span (the drawn fields are calendar-valid, so nothing else is refused).
pub fn current_local_truncated() -> (r: Option<LocalDateTime>)
    ensures
        r matches Some(dt) ==> dt.well_formed(),
{
    local_of_clock_fields(oslo_now_fields())
}

} // verus!
