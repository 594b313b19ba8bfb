//! Text forms of local date-times.
//!
//! Two fixed 19-character layouts are used: the storage layout
//! `YYYY-MM-DD HH:MM:SS` (how the store encodes dates) and the form layout
//! `YYYY-MM-DDTHH:MM:SS` (how request bodies and query strings carry them).
//! They differ only in the separator between date and clock.

use vstd::prelude::*;
use crate::time::{LocalDateTime, days_in_month, spec_days_in_month};
use crate::text::{
    spec_digit_char, spec_two_digits, spec_is_digit, spec_digit_value, is_digit, digit_value,
    push_two_digits,
};
use vstd::string::StrSliceExecFns;

verus! {

/// The 19-character text form of `dt` with the given separator between the
/// date and the clock.
pub open spec fn spec_datetime_chars(dt: LocalDateTime, sep: char) -> Seq<char> {
    spec_two_digits(dt.year as int / 100) + spec_two_digits(dt.year as int % 100) + seq!['-']
        + spec_two_digits(dt.month as int) + seq!['-'] + spec_two_digits(dt.day as int) + seq![sep]
        + spec_two_digits(dt.hour as int) + seq![':'] + spec_two_digits(dt.minute as int)
        + seq![':'] + spec_two_digits(dt.second as int)
}

/// Whether `s` has the 19-character date-time layout: digits in the value
/// positions and the fixed punctuation in between.
pub open spec fn spec_datetime_shape(s: Seq<char>, sep: char) -> bool {
    &&& s.len() == 19
    &&& spec_is_digit(s[0]) && spec_is_digit(s[1]) && spec_is_digit(s[2]) && spec_is_digit(s[3])
    &&& s[4] == '-'
    &&& spec_is_digit(s[5]) && spec_is_digit(s[6])
    &&& s[7] == '-'
    &&& spec_is_digit(s[8]) && spec_is_digit(s[9])
    &&& s[10] == sep
    &&& spec_is_digit(s[11]) && spec_is_digit(s[12])
    &&& s[13] == ':'
    &&& spec_is_digit(s[14]) && spec_is_digit(s[15])
    &&& s[16] == ':'
    &&& spec_is_digit(s[17]) && spec_is_digit(s[18])
}

pub open spec fn spec_two_digit_value(s: Seq<char>, i: int) -> int {
    10 * spec_digit_value(s[i]) + spec_digit_value(s[i + 1])
}

/// The field values read from a string of the date-time layout.
pub open spec fn spec_datetime_value(s: Seq<char>) -> LocalDateTime {
    LocalDateTime {
        year: (100 * spec_two_digit_value(s, 0) + spec_two_digit_value(s, 2)) as i32,
        month: spec_two_digit_value(s, 5) as u8,
        day: spec_two_digit_value(s, 8) as u8,
        hour: spec_two_digit_value(s, 11) as u8,
        minute: spec_two_digit_value(s, 14) as u8,
        second: spec_two_digit_value(s, 17) as u8,
    }
}

/// The date-time that `s` denotes under the given separator, if `s` has the
/// layout and the field values make a valid calendar date-time.
pub open spec fn spec_parse_datetime(s: Seq<char>, sep: char) -> Option<LocalDateTime> {
    if spec_datetime_shape(s, sep) && spec_datetime_value(s).well_formed() {
        Some(spec_datetime_value(s))
    } else {
        None
    }
}

fn read_two_digits(s: &str, i: usize) -> (r: Option<u8>)
    requires
        i + 2 <= s@.len(),
        s@.len() <= usize::MAX,
    ensures
        match r {
            Some(v) => spec_is_digit(s@[i as int]) && spec_is_digit(s@[i + 1]) && v as int
                == spec_two_digit_value(s@, i as int),
            None => !(spec_is_digit(s@[i as int]) && spec_is_digit(s@[i + 1])),
        },
{
    let c0 = s.get_char(i);
    let c1 = s.get_char(i + 1);
    if is_digit(c0) && is_digit(c1) {
        Some(10 * digit_value(c0) + digit_value(c1))
    } else {
        None
    }
}

fn parse_datetime(s: &str, sep: char) -> (r: Option<LocalDateTime>)
    ensures
        r == spec_parse_datetime(s@, sep),
        r matches Some(dt) ==> dt.well_formed(),
{
    if s.unicode_len() != 19 {
        return None;
    }
    if s.get_char(4) != '-' || s.get_char(7) != '-' || s.get_char(10) != sep || s.get_char(13)
        != ':' || s.get_char(16) != ':' {
        return None;
    }
    let hi = match read_two_digits(s, 0) {
        Some(v) => v,
        None => {
            return None;
        },
    };
    let lo = match read_two_digits(s, 2) {
        Some(v) => v,
        None => {
            return None;
        },
    };
    let month = match read_two_digits(s, 5) {
        Some(v) => v,
        None => {
            return None;
        },
    };
    let day = match read_two_digits(s, 8) {
        Some(v) => v,
        None => {
            return None;
        },
    };
    let hour = match read_two_digits(s, 11) {
        Some(v) => v,
        None => {
            return None;
        },
    };
    let minute = match read_two_digits(s, 14) {
        Some(v) => v,
        None => {
            return None;
        },
    };
    let second = match read_two_digits(s, 17) {
        Some(v) => v,
        None => {
            return None;
        },
    };
    let year: i32 = 100 * (hi as i32) + (lo as i32);
    let dt = LocalDateTime { year, month, day, hour, minute, second };
    if year < 1 || month < 1 || month > 12 || day < 1 || hour > 23 || minute > 59 || second > 59 {
        return None;
    }
    if day > days_in_month(year, month) {
        return None;
    }
    assert(dt == spec_datetime_value(s@));
    assert(dt.well_formed());
    Some(dt)
}

/// Parses the storage layout `YYYY-MM-DD HH:MM:SS`.
pub fn parse_storage_datetime(s: &str) -> (r: Option<LocalDateTime>)
    ensures
        r == spec_parse_datetime(s@, ' '),
        r matches Some(dt) ==> dt.well_formed(),
{
    parse_datetime(s, ' ')
}

/// Parses the form layout `YYYY-MM-DDTHH:MM:SS`.
pub fn parse_form_datetime(s: &str) -> (r: Option<LocalDateTime>)
    ensures
        r == spec_parse_datetime(s@, 'T'),
        r matches Some(dt) ==> dt.well_formed(),
{
    parse_datetime(s, 'T')
}

fn format_datetime(dt: &LocalDateTime, sep: char) -> (r: String)
    requires
        dt.well_formed(),
    ensures
        r@ == spec_datetime_chars(*dt, sep),
{
    let mut out = String::new();
    push_two_digits(&mut out, (dt.year / 100) as u8);
    push_two_digits(&mut out, (dt.year % 100) as u8);
    out.push('-');
    push_two_digits(&mut out, dt.month);
    out.push('-');
    push_two_digits(&mut out, dt.day);
    out.push(sep);
    push_two_digits(&mut out, dt.hour);
    out.push(':');
    push_two_digits(&mut out, dt.minute);
    out.push(':');
    push_two_digits(&mut out, dt.second);
    proof {
        assert(out@ =~= spec_datetime_chars(*dt, sep));
    }
    out
}

/// Writes `dt` in the storage layout `YYYY-MM-DD HH:MM:SS`.
pub fn format_storage_datetime(dt: &LocalDateTime) -> (r: String)
    requires
        dt.well_formed(),
    ensures
        r@ == spec_datetime_chars(*dt, ' '),
{
    format_datetime(dt, ' ')
}

/// Writes `dt` in the form layout `YYYY-MM-DDTHH:MM:SS`.
pub fn format_form_datetime(dt: &LocalDateTime) -> (r: String)
    requires
        dt.well_formed(),
    ensures
        r@ == spec_datetime_chars(*dt, 'T'),
{
    format_datetime(dt, 'T')
}

/// Whether `s` is a bare time of day `HH:MM:SS` with in-range fields.
pub open spec fn spec_is_time_of_day(s: Seq<char>) -> bool {
    &&& s.len() == 8
    &&& spec_is_digit(s[0]) && spec_is_digit(s[1])
    &&& s[2] == ':'
    &&& spec_is_digit(s[3]) && spec_is_digit(s[4])
    &&& s[5] == ':'
    &&& spec_is_digit(s[6]) && spec_is_digit(s[7])
    &&& spec_two_digit_value(s, 0) < 24
    &&& spec_two_digit_value(s, 3) < 60
    &&& spec_two_digit_value(s, 6) < 60
}

/// Whether `s` is a bare time of day `HH:MM:SS`.
pub fn is_time_of_day(s: &str) -> (r: bool)
    ensures
        r == spec_is_time_of_day(s@),
{
    if s.unicode_len() != 8 {
        return false;
    }
    if s.get_char(2) != ':' || s.get_char(5) != ':' {
        return false;
    }
    let hour = match read_two_digits(s, 0) {
        Some(v) => v,
        None => {
            return false;
        },
    };
    let minute = match read_two_digits(s, 3) {
        Some(v) => v,
        None => {
            return false;
        },
    };
    let second = match read_two_digits(s, 6) {
        Some(v) => v,
        None => {
            return false;
        },
    };
    hour < 24 && minute < 60 && second < 60
}

/// A formatted date-time parses back to exactly the value it was written
/// from: dates round-trip through their text form with second precision.
pub proof fn lemma_datetime_round_trip(dt: LocalDateTime, sep: char)
    requires
        dt.well_formed(),
        !spec_is_digit(sep),
        sep != '-',
    ensures
        spec_parse_datetime(spec_datetime_chars(dt, sep), sep) == Some(dt),
{
    let s = spec_datetime_chars(dt, sep);
    assert forall|d: int| 0 <= d < 10 implies spec_is_digit(spec_digit_char(d))
        && spec_digit_value(spec_digit_char(d)) == d by {
        assert(spec_digit_char(d) as int == '0' as int + d);
    }
    assert(s.len() == 19);
    assert(spec_datetime_shape(s, sep));
    let v = spec_datetime_value(s);
    assert(v.year as int == dt.year as int) by {
        assert(spec_two_digit_value(s, 0) == dt.year as int / 100);
        assert(spec_two_digit_value(s, 2) == dt.year as int % 100);
    }
    assert(v.month == dt.month && v.day == dt.day && v.hour == dt.hour && v.minute == dt.minute
        && v.second == dt.second);
    assert(v == dt);
}

} // verus!
