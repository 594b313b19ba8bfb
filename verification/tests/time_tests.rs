use activity_log::time::{LocalDateTime, season_window};
use activity_log::timefmt::{
    format_storage_datetime, format_form_datetime, parse_storage_datetime, parse_form_datetime,
};
use activity_log::zone::{
    to_absolute, from_absolute, absolute_round_trip, current_local_truncated,
    local_of_clock_fields, TimeError,
};

fn dt(year: i32, month: u8, day: u8, hour: u8, minute: u8, second: u8) -> LocalDateTime {
    LocalDateTime { year, month, day, hour, minute, second }
}

#[test]
fn season_window_september_2025() {
    let now = dt(2025, 9, 15, 12, 0, 0);
    let (start, end) = season_window(&now);
    assert_eq!(start, dt(2024, 10, 1, 0, 0, 0));
    assert_eq!(end, dt(2025, 10, 1, 0, 0, 0));
}

#[test]
fn season_window_november_2025() {
    let now = dt(2025, 11, 2, 8, 30, 0);
    let (start, end) = season_window(&now);
    assert_eq!(start, dt(2025, 10, 1, 0, 0, 0));
    assert_eq!(end, dt(2026, 10, 1, 0, 0, 0));
}

#[test]
fn season_window_october_boundary() {
    let now = dt(2025, 10, 1, 0, 0, 0);
    let (start, end) = season_window(&now);
    assert_eq!(start, dt(2025, 10, 1, 0, 0, 0));
    assert_eq!(end, dt(2026, 10, 1, 0, 0, 0));
}

#[test]
fn storage_format_round_trips() {
    let value = dt(2025, 2, 3, 4, 5, 6);
    let text = format_storage_datetime(&value);
    assert_eq!(text, "2025-02-03 04:05:06");
    assert_eq!(parse_storage_datetime(&text), Some(value));
}

#[test]
fn form_format_round_trips() {
    let value = dt(2025, 12, 31, 23, 59, 59);
    let text = format_form_datetime(&value);
    assert_eq!(text, "2025-12-31T23:59:59");
    assert_eq!(parse_form_datetime(&text), Some(value));
}

#[test]
fn parse_rejects_bad_layouts() {
    assert_eq!(parse_storage_datetime("2025-02-03T04:05:06"), None);
    assert_eq!(parse_form_datetime("2025-02-03 04:05:06"), None);
    assert_eq!(parse_form_datetime("not-a-date"), None);
    assert_eq!(parse_form_datetime(""), None);
    assert_eq!(parse_form_datetime("2025-13-01T00:00:00"), None);
    assert_eq!(parse_form_datetime("2025-02-29T00:00:00"), None);
    assert_eq!(parse_form_datetime("2024-02-29T00:00:00"), Some(dt(2024, 2, 29, 0, 0, 0)));
    assert_eq!(parse_form_datetime("2025-01-01T24:00:00"), None);
    assert_eq!(parse_form_datetime("0000-01-01T00:00:00"), None);
}

#[test]
fn to_absolute_winter_instant() {
    // Oslo is UTC+1 on January 1: midnight local is 23:00 UTC the day before.
    let value = dt(2025, 1, 1, 0, 0, 0);
    assert_eq!(to_absolute(&value), Ok(1_735_686_000));
}

#[test]
fn to_absolute_rejects_spring_gap() {
    // The clock jumps from 02:00 to 03:00 on March 30, 2025 in Oslo.
    let value = dt(2025, 3, 30, 2, 30, 0);
    assert_eq!(to_absolute(&value), Err(TimeError::AmbiguousOrInvalidLocalTime));
}

#[test]
fn to_absolute_rejects_autumn_fold() {
    // 02:30 on October 26, 2025 happens twice in Oslo.
    let value = dt(2025, 10, 26, 2, 30, 0);
    assert_eq!(to_absolute(&value), Err(TimeError::AmbiguousOrInvalidLocalTime));
}

#[test]
fn from_absolute_winter_instant() {
    assert_eq!(from_absolute(1_735_686_000), dt(2025, 1, 1, 0, 0, 0));
}

#[test]
fn absolute_conversion_round_trips() {
    let values = [
        dt(2025, 1, 1, 0, 0, 0),
        dt(2025, 7, 15, 13, 45, 59),
        dt(1999, 12, 31, 23, 59, 59),
        dt(2025, 3, 30, 3, 0, 0),
        dt(2, 1, 1, 0, 0, 0),
        dt(9998, 12, 31, 23, 59, 59),
    ];
    for value in values {
        assert_eq!(absolute_round_trip(&value), Some(value));
    }
    assert_eq!(absolute_round_trip(&dt(2025, 3, 30, 2, 30, 0)), None);
}

#[test]
fn clock_fields_are_held_exactly() {
    assert_eq!(
        local_of_clock_fields((2025, 9, 15, 12, 30, 59)),
        Some(dt(2025, 9, 15, 12, 30, 59)),
    );
    // a year outside the supported span is refused, valid fields are not
    assert_eq!(local_of_clock_fields((0, 1, 1, 0, 0, 0)), None);
    assert_eq!(local_of_clock_fields((10000, 1, 1, 0, 0, 0)), None);
    assert_eq!(local_of_clock_fields((2025, 2, 29, 0, 0, 0)), None);
    assert_eq!(local_of_clock_fields((2024, 2, 29, 0, 0, 0)), Some(dt(2024, 2, 29, 0, 0, 0)));
}

#[test]
fn current_time_is_well_formed() {
    let now = current_local_truncated().unwrap();
    assert!(now.year >= 2020);
    assert!((1..=12).contains(&now.month));
    assert!((1..=31).contains(&now.day));
    assert!(now.hour < 24 && now.minute < 60 && now.second < 60);
}
