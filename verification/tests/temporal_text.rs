//! Tests of the temporal text grammar: exact values, round trips, and
//! agreement with the chrono library's parsing and formatting.

use serde_polars::datetext::{format_date, parse_date};
use serde_polars::timetext::{
    format_naive_datetime, format_rfc3339_utc, parse_naive_datetime, parse_rfc3339,
};

fn chrono_days(y: i32, m: u32, d: u32) -> i32 {
    let date = chrono::NaiveDate::from_ymd_opt(y, m, d).unwrap();
    let epoch = chrono::NaiveDate::from_ymd_opt(1970, 1, 1).unwrap();
    date.signed_duration_since(epoch).num_days() as i32
}

#[test]
fn parse_date_exact_values() {
    assert_eq!(parse_date("1970-01-01"), Some(0));
    assert_eq!(parse_date("1970-01-02"), Some(1));
    assert_eq!(parse_date("1969-12-31"), Some(-1));
    assert_eq!(parse_date("2024-01-01"), Some(19723));
    assert_eq!(parse_date("2000-02-29"), Some(chrono_days(2000, 2, 29)));
    assert_eq!(parse_date("0000-01-01"), Some(chrono_days(0, 1, 1)));
    assert_eq!(parse_date("9999-12-31"), Some(chrono_days(9999, 12, 31)));
}

#[test]
fn parse_date_rejects_malformed_text() {
    assert_eq!(parse_date(""), None);
    assert_eq!(parse_date("1990-5-15"), None);
    assert_eq!(parse_date("19900515"), None);
    assert_eq!(parse_date("20240101"), None);
    assert_eq!(parse_date("1990/05/15"), None);
    assert_eq!(parse_date("1990-13-01"), None);
    assert_eq!(parse_date("1990-00-10"), None);
    assert_eq!(parse_date("1990-02-30"), None);
    assert_eq!(parse_date("1900-02-29"), None);
    assert_eq!(parse_date("2000-02-30"), None);
    assert_eq!(parse_date("1990-05-15 "), None);
    assert_eq!(parse_date("199o-05-15"), None);
}

#[test]
fn date_agrees_with_chrono() {
    for &(y, m, d) in &[
        (1990u32, 5u32, 15u32),
        (1985, 12, 3),
        (2023, 6, 15),
        (1600, 2, 29),
        (2100, 3, 1),
        (1, 1, 1),
        (9999, 12, 31),
    ] {
        let date = chrono::NaiveDate::from_ymd_opt(y as i32, m, d).unwrap();
        let text = format!("{}", date.format("%Y-%m-%d"));
        let days = chrono_days(y as i32, m, d);
        assert_eq!(parse_date(&text), Some(days), "parse of {}", text);
        assert_eq!(format_date(days), text, "format of {}", days);
    }
}

#[test]
fn date_round_trip_over_a_range() {
    let mut days = chrono_days(1969, 12, 1);
    let end = chrono_days(1970, 2, 1);
    while days <= end {
        let text = format_date(days);
        assert_eq!(parse_date(&text), Some(days));
        days += 1;
    }
    for days in [-719528, -400000, -1, 0, 1, 19723, 2932896] {
        let text = format_date(days);
        assert_eq!(parse_date(&text), Some(days));
    }
}

fn chrono_naive_nanos(text: &str) -> i64 {
    chrono::NaiveDateTime::parse_from_str(text, "%Y-%m-%dT%H:%M:%S%.f")
        .unwrap()
        .and_utc()
        .timestamp_nanos_opt()
        .unwrap()
}

#[test]
fn naive_datetime_exact_values() {
    assert_eq!(parse_naive_datetime("1970-01-01T00:00:00"), Some(0));
    assert_eq!(parse_naive_datetime("1970-01-01T00:00:01"), Some(1_000_000_000));
    assert_eq!(parse_naive_datetime("1969-12-31T23:59:59"), Some(-1_000_000_000));
    assert_eq!(
        parse_naive_datetime("1970-01-01T00:00:00.5"),
        Some(500_000_000)
    );
    assert_eq!(
        parse_naive_datetime("1970-01-01T00:00:00.500"),
        Some(500_000_000)
    );
    assert_eq!(
        parse_naive_datetime("1970-01-02T00:00:00"),
        Some(86_400_000_000_000)
    );
}

#[test]
fn naive_datetime_rejects_malformed_text() {
    assert_eq!(parse_naive_datetime("2023-06-15"), None);
    assert_eq!(parse_naive_datetime("2023-06-15 14:30:00"), None);
    assert_eq!(parse_naive_datetime("2023-06-15T24:00:00"), None);
    assert_eq!(parse_naive_datetime("2023-06-15T14:60:00"), None);
    assert_eq!(parse_naive_datetime("2023-06-15T14:30:61"), None);
    assert_eq!(parse_naive_datetime("2023-06-15T14:30:00."), None);
    assert_eq!(parse_naive_datetime("2023-06-15T14:30:00.0123456789"), None);
    // A representable shape whose instant overflows the 64-bit count.
    assert_eq!(parse_naive_datetime("9999-12-31T23:59:59"), None);
}

#[test]
fn naive_datetime_agrees_with_chrono() {
    for text in [
        "2023-06-15T14:30:00",
        "2022-12-15T10:30:00",
        "1970-01-01T00:00:00.123",
        "2001-09-09T01:46:40.123456",
        "1969-07-20T20:17:40.000000001",
    ] {
        let nanos = chrono_naive_nanos(text);
        assert_eq!(parse_naive_datetime(text), Some(nanos), "parse of {}", text);
        let dt = chrono::DateTime::from_timestamp_nanos(nanos).naive_utc();
        let canonical = format!("{}", dt.format("%Y-%m-%dT%H:%M:%S%.f"));
        assert_eq!(format_naive_datetime(nanos), canonical, "format of {}", nanos);
    }
}

#[test]
fn naive_datetime_round_trip_at_extremes() {
    for nanos in [i64::MIN, i64::MIN + 1, -1, 0, 1, 999_999_999, i64::MAX] {
        let text = format_naive_datetime(nanos);
        assert_eq!(parse_naive_datetime(&text), Some(nanos));
        let dt = chrono::DateTime::from_timestamp_nanos(nanos).naive_utc();
        let canonical = format!("{}", dt.format("%Y-%m-%dT%H:%M:%S%.f"));
        assert_eq!(text, canonical);
    }
}

#[test]
fn rfc3339_exact_values() {
    assert_eq!(parse_rfc3339("1970-01-01T00:00:00Z"), Some(0));
    assert_eq!(parse_rfc3339("1970-01-01T00:00:00z"), Some(0));
    assert_eq!(parse_rfc3339("1970-01-01T00:00:00+00:00"), Some(0));
    assert_eq!(
        parse_rfc3339("1970-01-01T01:00:00+01:00"),
        Some(0),
        "an eastern offset subtracts"
    );
    assert_eq!(
        parse_rfc3339("1969-12-31T23:00:00-01:00"),
        Some(0),
        "a western offset adds"
    );
    assert_eq!(
        parse_rfc3339("2023-06-15T14:30:00Z"),
        Some(
            chrono::DateTime::parse_from_rfc3339("2023-06-15T14:30:00Z")
                .unwrap()
                .timestamp_nanos_opt()
                .unwrap()
        )
    );
}

#[test]
fn rfc3339_rejects_malformed_text() {
    assert_eq!(parse_rfc3339("2023-06-15T14:30:00"), None);
    assert_eq!(parse_rfc3339("2023-06-15T14:30:00+0000"), None);
    assert_eq!(parse_rfc3339("2023-06-15T14:30:00+24:00"), None);
    assert_eq!(parse_rfc3339("2023-06-15T14:30:00X"), None);
    assert_eq!(parse_rfc3339("2023-06-15T14:30:00Zz"), None);
    assert_eq!(parse_rfc3339("2023-06-15T14:30:00.Z"), None);
}

#[test]
fn rfc3339_agrees_with_chrono() {
    for text in [
        "2023-06-15T14:30:00Z",
        "2023-06-16T09:15:30Z",
        "2023-01-01T00:00:00Z",
        "2022-12-15T10:30:00+05:30",
        "1969-12-31T16:00:00-08:00",
        "2020-02-29T23:59:59.999Z",
    ] {
        let nanos = chrono::DateTime::parse_from_rfc3339(text)
            .unwrap()
            .timestamp_nanos_opt()
            .unwrap();
        assert_eq!(parse_rfc3339(text), Some(nanos), "parse of {}", text);
        let formatted = format_rfc3339_utc(nanos);
        let chrono_formatted = chrono::DateTime::from_timestamp_nanos(nanos).to_rfc3339();
        assert_eq!(formatted, chrono_formatted, "format of {}", nanos);
        assert_eq!(parse_rfc3339(&formatted), Some(nanos));
    }
}
