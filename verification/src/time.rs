//! Wall-clock date-times in the service's fixed local time zone.
//!
//! Activity timestamps are plain local date-times with second precision:
//! no offset is stored.  This module holds the calendar model (validity,
//! ordering) and the season-window computation used for the default
//! listing range.

use vstd::prelude::*;

verus! {

/// A wall-clock date-time, precise to the second, with no zone offset.
#[derive(Clone, Copy, Debug, PartialEq, Eq, Structural)]
pub struct LocalDateTime {
    pub year: i32,
    pub month: u8,
    pub day: u8,
    pub hour: u8,
    pub minute: u8,
    pub second: u8,
}

pub open spec fn spec_is_leap_year(y: int) -> bool {
    (y % 4 == 0 && y % 100 != 0) || y % 400 == 0
}

pub open spec fn spec_days_in_month(y: int, m: int) -> int {
    if m == 2 {
        if spec_is_leap_year(y) {
            29
        } else {
            28
        }
    } else if m == 4 || m == 6 || m == 9 || m == 11 {
        30
    } else {
        31
    }
}

pub fn is_leap_year(y: i32) -> (r: bool)
    requires
        y >= 1,
    ensures
        r == spec_is_leap_year(y as int),
{
    (y % 4 == 0 && y % 100 != 0) || y % 400 == 0
}

pub fn days_in_month(y: i32, m: u8) -> (r: u8)
    requires
        y >= 1,
        1 <= m <= 12,
    ensures
        r as int == spec_days_in_month(y as int, m as int),
{
    if m == 2 {
        if is_leap_year(y) {
            29
        } else {
            28
        }
    } else if m == 4 || m == 6 || m == 9 || m == 11 {
        30
    } else {
        31
    }
}

impl LocalDateTime {
    /// A valid calendar date in the supported range, with in-range clock fields.
    pub open spec fn well_formed(self) -> bool {
        &&& 1 <= self.year <= 9999
        &&& 1 <= self.month <= 12
        &&& 1 <= self.day
        &&& self.day as int <= spec_days_in_month(self.year as int, self.month as int)
        &&& self.hour < 24
        &&& self.minute < 60
        &&& self.second < 60
    }

    /// Mixed-radix key: orders date-times chronologically and is injective
    /// on well-formed values, so ordering facts reduce to integer facts.
    pub open spec fn key(self) -> int {
        self.second as int + 100 * (self.minute as int + 100 * (self.hour as int + 100 * (
        self.day as int + 100 * (self.month as int + 100 * (self.year as int)))))
    }

    pub open spec fn le(self, other: Self) -> bool {
        self.key() <= other.key()
    }

    pub open spec fn lt(self, other: Self) -> bool {
        self.key() < other.key()
    }
}

/// Equal keys mean equal field values: the key is injective on
/// well-formed date-times.
pub proof fn lemma_key_injective(a: LocalDateTime, b: LocalDateTime)
    requires
        a.well_formed(),
        b.well_formed(),
        a.key() == b.key(),
    ensures
        a == b,
{
}

/// Chronological comparison, `a <= b`.
pub fn datetime_le(a: &LocalDateTime, b: &LocalDateTime) -> (r: bool)
    requires
        a.well_formed(),
        b.well_formed(),
    ensures
        r == a.le(*b),
{
    datetime_key(a) <= datetime_key(b)
}

/// Chronological comparison, `a < b`.
pub fn datetime_lt(a: &LocalDateTime, b: &LocalDateTime) -> (r: bool)
    requires
        a.well_formed(),
        b.well_formed(),
    ensures
        r == a.lt(*b),
{
    datetime_key(a) < datetime_key(b)
}

fn datetime_key(dt: &LocalDateTime) -> (r: i64)
    requires
        dt.well_formed(),
    ensures
        r as int == dt.key(),
{
    dt.second as i64 + 100 * (dt.minute as i64 + 100 * (dt.hour as i64 + 100 * (dt.day as i64
        + 100 * (dt.month as i64 + 100 * (dt.year as i64)))))
}

/// The 12-month reporting window that contains `now`: it starts on the
/// October 1 that most recently passed (October 1 of the current year when
/// the month is October or later, of the previous year otherwise) and ends
/// exactly 12 months later.
pub fn season_window(now: &LocalDateTime) -> (r: (LocalDateTime, LocalDateTime))
    requires
        now.well_formed(),
        2 <= now.year <= 9998,
    ensures
        r.0.well_formed(),
        r.1.well_formed(),
        r.0.year as int == if now.month >= 10 {
            now.year as int
        } else {
            now.year as int - 1
        },
        r.0.month == 10 && r.0.day == 1 && r.0.hour == 0 && r.0.minute == 0 && r.0.second == 0,
        r.1.year as int == r.0.year as int + 1,
        r.1.month == 10 && r.1.day == 1 && r.1.hour == 0 && r.1.minute == 0 && r.1.second == 0,
        r.0.lt(r.1),
{
    let start_year: i32 = if now.month >= 10 {
        now.year
    } else {
        now.year - 1
    };
    let start = LocalDateTime {
        year: start_year,
        month: 10,
        day: 1,
        hour: 0,
        minute: 0,
        second: 0,
    };
    let end = LocalDateTime {
        year: start_year + 1,
        month: 10,
        day: 1,
        hour: 0,
        minute: 0,
        second: 0,
    };
    (start, end)
}

} // verus!
