//! Tests of the temporal signal classification and the signal map.
//! Detection is purely type-name driven: an integer field whose value
//! looks like a date never yields a signal.

use serde_polars::signal::{
    classify_field_type_name, classify_wrapper_name, SignalMap, TemporalSignal,
};

#[test]
fn recognized_foreign_temporal_types() {
    assert!(matches!(
        classify_field_type_name("chrono::naive::date::NaiveDate"),
        Some(TemporalSignal::NativeDate)
    ));
    assert!(matches!(
        classify_field_type_name("chrono::naive::datetime::NaiveDateTime"),
        Some(TemporalSignal::NativeNaiveDatetime)
    ));
    assert!(matches!(
        classify_field_type_name("chrono::datetime::DateTime<chrono::offset::utc::Utc>"),
        Some(TemporalSignal::NativeUtcDatetime)
    ));
}

#[test]
fn recognized_optional_foreign_temporal_types() {
    assert!(matches!(
        classify_field_type_name("core::option::Option<chrono::naive::date::NaiveDate>"),
        Some(TemporalSignal::NativeDate)
    ));
    assert!(matches!(
        classify_field_type_name("core::option::Option<chrono::naive::datetime::NaiveDateTime>"),
        Some(TemporalSignal::NativeNaiveDatetime)
    ));
    assert!(matches!(
        classify_field_type_name(
            "core::option::Option<chrono::datetime::DateTime<chrono::offset::utc::Utc>>"
        ),
        Some(TemporalSignal::NativeUtcDatetime)
    ));
}

#[test]
fn plain_types_yield_no_signal() {
    assert!(classify_field_type_name("i32").is_none());
    assert!(classify_field_type_name("i64").is_none());
    assert!(classify_field_type_name("u32").is_none());
    assert!(classify_field_type_name("alloc::string::String").is_none());
    assert!(classify_field_type_name("bool").is_none());
    assert!(classify_field_type_name("core::option::Option<i32>").is_none());
    assert!(classify_field_type_name("chrono::naive::date::NaiveDat").is_none());
    assert!(classify_field_type_name("xchrono::naive::date::NaiveDate").is_none());
}

#[test]
fn wrapper_markers_upgrade_to_native_kinds() {
    assert!(matches!(
        classify_wrapper_name("NaiveDate"),
        TemporalSignal::NativeDate
    ));
    assert!(matches!(
        classify_wrapper_name("NaiveDateTime"),
        TemporalSignal::NativeNaiveDatetime
    ));
    assert!(matches!(
        classify_wrapper_name("DateTimeUtc"),
        TemporalSignal::NativeUtcDatetime
    ));
}

#[test]
fn unrecognized_wrapper_keeps_its_name() {
    match classify_wrapper_name("UserId") {
        TemporalSignal::UnrecognizedWrapper(name) => assert_eq!(name, "UserId"),
        other => panic!("expected an unrecognized wrapper, got {:?}", other),
    }
    match classify_wrapper_name("Email") {
        TemporalSignal::UnrecognizedWrapper(name) => assert_eq!(name, "Email"),
        other => panic!("expected an unrecognized wrapper, got {:?}", other),
    }
}

#[test]
fn signal_map_records_and_overrides() {
    let mut map = SignalMap::new();
    assert!(map.is_empty());
    assert!(map.get("birth_date").is_none());
    map.set(String::from("birth_date"), TemporalSignal::NativeDate);
    assert!(matches!(
        map.get("birth_date"),
        Some(TemporalSignal::NativeDate)
    ));
    assert!(map.get("name").is_none());
    map.set(
        String::from("birth_date"),
        TemporalSignal::NativeUtcDatetime,
    );
    assert!(matches!(
        map.get("birth_date"),
        Some(TemporalSignal::NativeUtcDatetime)
    ));
    map.set(
        String::from("wrapped"),
        TemporalSignal::UnrecognizedWrapper(String::from("UserId")),
    );
    assert!(matches!(
        map.get("wrapped"),
        Some(TemporalSignal::UnrecognizedWrapper(_))
    ));
    assert!(!map.is_empty());
}
