use chrono::{DateTime, Duration, TimeZone, Utc};
use inline_cli::dates::parse_relative_time;

fn test_now() -> DateTime<Utc> {
    // Wednesday, January 28, 2026, 15:04:05 UTC
    Utc.with_ymd_and_hms(2026, 1, 28, 15, 4, 5)
        .single()
        .expect("valid datetime")
}

fn utc_ts(year: i32, month: u32, day: u32, hour: u32, minute: u32, second: u32) -> i64 {
    Utc.with_ymd_and_hms(year, month, day, hour, minute, second)
        .single()
        .expect("valid datetime")
        .timestamp()
}

#[test]
fn test_named_expressions() {
    let now = test_now().timestamp();

    // yesterday = 2026-01-27 00:00:00 UTC
    let yesterday = parse_relative_time("yesterday", now).expect("yesterday");
    assert_eq!(yesterday, utc_ts(2026, 1, 27, 0, 0, 0));

    // today = 2026-01-28 00:00:00 UTC
    let today = parse_relative_time("today", now).expect("today");
    assert_eq!(today, utc_ts(2026, 1, 28, 0, 0, 0));

    // tomorrow = 2026-01-29 00:00:00 UTC
    let tomorrow = parse_relative_time("tomorrow", now).expect("tomorrow");
    assert_eq!(tomorrow, utc_ts(2026, 1, 29, 0, 0, 0));
}

#[test]
fn test_relative_past() {
    let now = test_now();

    let two_hours_ago = parse_relative_time("2h ago", now.timestamp()).expect("2h ago");
    assert_eq!(two_hours_ago, (now - Duration::hours(2)).timestamp());

    let one_day_ago = parse_relative_time("1d ago", now.timestamp()).expect("1d ago");
    assert_eq!(one_day_ago, (now - Duration::days(1)).timestamp());

    let two_weeks_ago = parse_relative_time("2w ago", now.timestamp()).expect("2w ago");
    assert_eq!(two_weeks_ago, (now - Duration::weeks(2)).timestamp());
}

#[test]
fn test_relative_future() {
    let now = test_now();

    let thirty_mins = parse_relative_time("30m", now.timestamp()).expect("30m");
    assert_eq!(thirty_mins, (now + Duration::minutes(30)).timestamp());

    let two_hours = parse_relative_time("2h", now.timestamp()).expect("2h");
    assert_eq!(two_hours, (now + Duration::hours(2)).timestamp());
}

#[test]
fn test_weekday() {
    let now = test_now().timestamp(); // Wednesday

    // Monday (next occurrence, since today is Wednesday)
    let monday = parse_relative_time("monday", now).expect("monday");
    assert_eq!(monday, utc_ts(2026, 2, 2, 0, 0, 0));

    // next friday
    let friday = parse_relative_time("next friday", now).expect("next friday");
    assert_eq!(friday, utc_ts(2026, 1, 30, 0, 0, 0));
}

#[test]
fn test_date_formats() {
    let now = test_now().timestamp();

    // YYYY-MM-DD
    let date = parse_relative_time("2026-01-27", now).expect("date");
    assert_eq!(date, utc_ts(2026, 1, 27, 0, 0, 0));

    // RFC3339
    let rfc = parse_relative_time("2026-01-27T10:00:00Z", now).expect("rfc3339");
    assert_eq!(rfc, utc_ts(2026, 1, 27, 10, 0, 0));
}

#[test]
fn test_invalid_input() {
    let now = test_now().timestamp();
    assert!(parse_relative_time("not-a-date", now).is_err());
    assert_eq!(
        parse_relative_time("", now),
        Err("empty time expression".to_string())
    );
    assert_eq!(
        parse_relative_time("   ", now),
        Err("empty time expression".to_string())
    );
    assert!(parse_relative_time("0h ago", now).is_err());
}

#[test]
fn test_case_insensitive() {
    let now = test_now().timestamp();
    assert!(parse_relative_time("YESTERDAY", now).is_ok());
    assert!(parse_relative_time("Yesterday", now).is_ok());
    assert!(parse_relative_time("2H AGO", now).is_ok());
}

#[test]
fn rfc3339_offsets_shift_the_timestamp() {
    let now = test_now().timestamp();
    let with_offset = parse_relative_time("2026-01-27T10:00:00+02:00", now).expect("offset");
    assert_eq!(with_offset, utc_ts(2026, 1, 27, 8, 0, 0));

    let negative = parse_relative_time("2026-01-27T10:00:00-01:30", now).expect("offset");
    assert_eq!(negative, utc_ts(2026, 1, 27, 11, 30, 0));

    let fractional = parse_relative_time("2026-01-27T10:00:00.500Z", now).expect("fraction");
    assert_eq!(fractional, utc_ts(2026, 1, 27, 10, 0, 0));
}

#[test]
fn months_and_leap_days_follow_the_calendar() {
    let now = test_now().timestamp();
    // 2024 was a leap year; 2026 is not.
    assert!(parse_relative_time("2024-02-29", now).is_ok());
    assert!(parse_relative_time("2026-02-29", now).is_err());
    assert!(parse_relative_time("2026-13-01", now).is_err());
    assert!(parse_relative_time("2026-00-10", now).is_err());

    let leap = parse_relative_time("2024-02-29", now).expect("leap day");
    assert_eq!(leap, utc_ts(2024, 2, 29, 0, 0, 0));
}

#[test]
fn month_unit_is_thirty_days() {
    let now = test_now();
    let one_month_ago = parse_relative_time("1mo ago", now.timestamp()).expect("1mo ago");
    assert_eq!(one_month_ago, (now - Duration::days(30)).timestamp());
}
