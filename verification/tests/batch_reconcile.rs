//! Tests of the forward and reverse reconcilers over the batch model:
//! temporal rewrites, dictionary normalization, pass-through behaviour,
//! error reporting, and the round-trip laws on concrete data.

use serde_polars::batch::{Batch, Column, ColumnData};
use serde_polars::error::PolarsSerdeError;
use serde_polars::reconcile::{reconcile_batch, require_non_empty};
use serde_polars::signal::{SignalMap, TemporalSignal};
use serde_polars::unreconcile::unreconcile_batch;

fn utf8_col(name: &str, cells: Vec<Option<&str>>) -> Column {
    Column {
        name: String::from(name),
        nullable: true,
        data: ColumnData::Utf8(cells.into_iter().map(|c| c.map(String::from)).collect()),
    }
}

fn chrono_days(y: i32, m: u32, d: u32) -> i32 {
    let date = chrono::NaiveDate::from_ymd_opt(y, m, d).unwrap();
    let epoch = chrono::NaiveDate::from_ymd_opt(1970, 1, 1).unwrap();
    date.signed_duration_since(epoch).num_days() as i32
}

#[test]
fn empty_input_is_rejected() {
    let r = require_non_empty(0);
    assert!(r.is_err());
    assert!(matches!(r.unwrap_err(), PolarsSerdeError::EmptyInput));
    assert!(require_non_empty(1).is_ok());
    assert!(require_non_empty(200_000).is_ok());
}

#[test]
fn empty_input_error_message() {
    let e = require_non_empty(0).unwrap_err();
    assert_eq!(e.message(), "Cannot create DataFrame from empty input");
}

#[test]
fn date_texts_become_a_native_date_column() {
    let batch = Batch {
        columns: vec![
            utf8_col("name", vec![Some("Alice"), Some("Bob")]),
            utf8_col("birth_date", vec![Some("1990-05-15"), Some("1985-12-03")]),
        ],
    };
    let mut signals = SignalMap::new();
    signals.set(String::from("birth_date"), TemporalSignal::NativeDate);
    let out = reconcile_batch(batch, &signals).unwrap();
    assert_eq!(out.height(), 2);
    assert_eq!(out.num_columns(), 2);
    assert_eq!(out.columns[0].name, "name");
    assert!(matches!(out.columns[0].data, ColumnData::Utf8(_)));
    assert_eq!(out.columns[1].name, "birth_date");
    match &out.columns[1].data {
        ColumnData::Date32(days) => {
            assert_eq!(
                days,
                &vec![Some(chrono_days(1990, 5, 15)), Some(chrono_days(1985, 12, 3))]
            );
        },
        other => panic!("expected a native date column, got {:?}", other),
    }
}

#[test]
fn nulls_propagate_without_parsing() {
    let batch = Batch {
        columns: vec![utf8_col("d", vec![None, Some("1998-05-15"), None])],
    };
    let mut signals = SignalMap::new();
    signals.set(String::from("d"), TemporalSignal::NativeDate);
    let out = reconcile_batch(batch, &signals).unwrap();
    match &out.columns[0].data {
        ColumnData::Date32(days) => {
            assert_eq!(days, &vec![None, Some(chrono_days(1998, 5, 15)), None]);
        },
        other => panic!("expected a native date column, got {:?}", other),
    }
}

#[test]
fn unparseable_date_fails_the_column_naming_the_text() {
    let batch = Batch {
        columns: vec![utf8_col("d", vec![Some("1990-05-15"), Some("not-a-date")])],
    };
    let mut signals = SignalMap::new();
    signals.set(String::from("d"), TemporalSignal::NativeDate);
    match reconcile_batch(batch, &signals) {
        Err(PolarsSerdeError::ConversionError { message }) => {
            assert_eq!(message, "Failed to parse date string: not-a-date");
        },
        other => panic!("expected a conversion error, got {:?}", other),
    }
}

#[test]
fn integer_column_with_date_like_value_is_untouched() {
    // A plain integer field named like a date never carries a signal, so
    // the reconciler must pass its column through unchanged.
    let batch = Batch {
        columns: vec![
            Column {
                name: String::from("calc_min_date"),
                nullable: false,
                data: ColumnData::Int32(vec![Some(20240101), Some(20231215)]),
            },
            utf8_col("name", vec![Some("Test Record"), Some("Test Record 2")]),
        ],
    };
    let signals = SignalMap::new();
    let out = reconcile_batch(batch, &signals).unwrap();
    match &out.columns[0].data {
        ColumnData::Int32(v) => assert_eq!(v, &vec![Some(20240101), Some(20231215)]),
        other => panic!("expected the integer column unchanged, got {:?}", other),
    }
    let back = unreconcile_batch(out).unwrap();
    match &back.columns[0].data {
        ColumnData::Int32(v) => assert_eq!(v, &vec![Some(20240101), Some(20231215)]),
        other => panic!("expected the integer column unchanged, got {:?}", other),
    }
}

#[test]
fn dictionary_text_is_normalized_to_plain_text() {
    let batch = Batch {
        columns: vec![Column {
            name: String::from("status"),
            nullable: true,
            data: ColumnData::DictUtf8(vec![
                Some(String::from("Active")),
                Some(String::from("Pending")),
                Some(String::from("Active")),
                None,
            ]),
        }],
    };
    let signals = SignalMap::new();
    let out = reconcile_batch(batch, &signals).unwrap();
    match &out.columns[0].data {
        ColumnData::Utf8(v) => {
            assert_eq!(
                v,
                &vec![
                    Some(String::from("Active")),
                    Some(String::from("Pending")),
                    Some(String::from("Active")),
                    None
                ]
            );
        },
        other => panic!("expected plain text, got {:?}", other),
    }
}

#[test]
fn unrecognized_wrapper_drives_no_rewrite() {
    let batch = Batch {
        columns: vec![Column {
            name: String::from("user_id"),
            nullable: false,
            data: ColumnData::Int64(vec![Some(1001), Some(1002)]),
        }],
    };
    let mut signals = SignalMap::new();
    signals.set(
        String::from("user_id"),
        TemporalSignal::UnrecognizedWrapper(String::from("UserId")),
    );
    let out = reconcile_batch(batch, &signals).unwrap();
    match &out.columns[0].data {
        ColumnData::Int64(v) => assert_eq!(v, &vec![Some(1001), Some(1002)]),
        other => panic!("expected the column unchanged, got {:?}", other),
    }
}

#[test]
fn wrapped_date_round_trips_exactly() {
    // A field wrapped as a calendar date with value "1998-05-15" lands in
    // a native date column and comes back as the identical text.
    let batch = Batch {
        columns: vec![utf8_col("hired", vec![Some("1998-05-15")])],
    };
    let mut signals = SignalMap::new();
    signals.set(String::from("hired"), TemporalSignal::NativeDate);
    let native = reconcile_batch(batch, &signals).unwrap();
    match &native.columns[0].data {
        ColumnData::Date32(days) => assert_eq!(days, &vec![Some(chrono_days(1998, 5, 15))]),
        other => panic!("expected a native date column, got {:?}", other),
    }
    let back = unreconcile_batch(native).unwrap();
    match &back.columns[0].data {
        ColumnData::Utf8(v) => assert_eq!(v, &vec![Some(String::from("1998-05-15"))]),
        other => panic!("expected text, got {:?}", other),
    }
}

#[test]
fn datetime_texts_round_trip_through_native_timestamps() {
    let batch = Batch {
        columns: vec![
            utf8_col(
                "start_time",
                vec![Some("2023-06-15T14:30:00"), Some("2023-06-15T12:00:00.250")],
            ),
            utf8_col(
                "created_at",
                vec![Some("2023-06-15T14:30:00Z"), Some("2023-06-16T09:15:30Z")],
            ),
        ],
    };
    let mut signals = SignalMap::new();
    signals.set(String::from("start_time"), TemporalSignal::NativeNaiveDatetime);
    signals.set(String::from("created_at"), TemporalSignal::NativeUtcDatetime);
    let native = reconcile_batch(batch, &signals).unwrap();
    match &native.columns[0].data {
        ColumnData::TimestampNanos(ns, zone) => {
            assert!(zone.is_none());
            let expected = chrono::NaiveDateTime::parse_from_str(
                "2023-06-15T14:30:00",
                "%Y-%m-%dT%H:%M:%S%.f",
            )
            .unwrap()
            .and_utc()
            .timestamp_nanos_opt()
            .unwrap();
            assert_eq!(ns[0], Some(expected));
        },
        other => panic!("expected a naive timestamp column, got {:?}", other),
    }
    match &native.columns[1].data {
        ColumnData::TimestampNanos(ns, zone) => {
            assert_eq!(zone.as_deref(), Some("UTC"));
            let expected = chrono::DateTime::parse_from_rfc3339("2023-06-15T14:30:00Z")
                .unwrap()
                .timestamp_nanos_opt()
                .unwrap();
            assert_eq!(ns[0], Some(expected));
        },
        other => panic!("expected a UTC timestamp column, got {:?}", other),
    }
    let back = unreconcile_batch(native).unwrap();
    match &back.columns[0].data {
        ColumnData::Utf8(v) => {
            assert_eq!(v[0].as_deref(), Some("2023-06-15T14:30:00"));
            assert_eq!(v[1].as_deref(), Some("2023-06-15T12:00:00.250"));
        },
        other => panic!("expected text, got {:?}", other),
    }
    match &back.columns[1].data {
        ColumnData::Utf8(v) => {
            // The reverse pass writes the canonical explicit offset.
            assert_eq!(v[0].as_deref(), Some("2023-06-15T14:30:00+00:00"));
            assert_eq!(v[1].as_deref(), Some("2023-06-16T09:15:30+00:00"));
        },
        other => panic!("expected text, got {:?}", other),
    }
}

#[test]
fn double_round_trip_is_idempotent() {
    // records -> native batch -> text batch -> native batch: the second
    // native batch equals the first, column for column and cell for cell.
    let batch = Batch {
        columns: vec![
            utf8_col("d", vec![Some("1990-05-15"), None, Some("2023-06-15")]),
            utf8_col("t", vec![Some("2023-06-15T14:30:00"), Some("2020-01-01T00:00:00.5"), None]),
            utf8_col("u", vec![Some("2023-06-15T14:30:00Z"), None, Some("2023-01-01T00:00:00Z")]),
            utf8_col("name", vec![Some("Alice"), Some("Bob"), Some("Charlie")]),
        ],
    };
    let mut signals = SignalMap::new();
    signals.set(String::from("d"), TemporalSignal::NativeDate);
    signals.set(String::from("t"), TemporalSignal::NativeNaiveDatetime);
    signals.set(String::from("u"), TemporalSignal::NativeUtcDatetime);
    let native1 = reconcile_batch(batch, &signals).unwrap();
    let texts = unreconcile_batch(native1).unwrap();
    // Rebuild the first native batch for comparison.
    let batch_again = Batch {
        columns: vec![
            utf8_col("d", vec![Some("1990-05-15"), None, Some("2023-06-15")]),
            utf8_col("t", vec![Some("2023-06-15T14:30:00"), Some("2020-01-01T00:00:00.5"), None]),
            utf8_col("u", vec![Some("2023-06-15T14:30:00Z"), None, Some("2023-01-01T00:00:00Z")]),
            utf8_col("name", vec![Some("Alice"), Some("Bob"), Some("Charlie")]),
        ],
    };
    let native1_again = reconcile_batch(batch_again, &signals).unwrap();
    let native2 = reconcile_batch(texts, &signals).unwrap();
    assert_eq!(native2, native1_again);
}

#[test]
fn four_column_scenario_preserves_shape() {
    // Two records of four fields: integer, text, float and bool.  The
    // reconcilers only carry the float and bool columns through, so they
    // stand as opaque columns here; the batch keeps 4 columns and 2 rows
    // through both passes.
    let batch = Batch {
        columns: vec![
            Column {
                name: String::from("id"),
                nullable: false,
                data: ColumnData::Int64(vec![Some(1), Some(2)]),
            },
            utf8_col("name", vec![Some("Alice"), Some("Bob")]),
            Column { name: String::from("score"), nullable: false, data: ColumnData::Opaque(2) },
            Column { name: String::from("active"), nullable: false, data: ColumnData::Opaque(2) },
        ],
    };
    let signals = SignalMap::new();
    let out = reconcile_batch(batch, &signals).unwrap();
    assert_eq!(out.num_columns(), 4);
    assert_eq!(out.height(), 2);
    let back = unreconcile_batch(out).unwrap();
    assert_eq!(back.num_columns(), 4);
    assert_eq!(back.height(), 2);
    match &back.columns[0].data {
        ColumnData::Int64(v) => assert_eq!(v, &vec![Some(1), Some(2)]),
        other => panic!("expected the integer column unchanged, got {:?}", other),
    }
    match &back.columns[1].data {
        ColumnData::Utf8(v) => {
            assert_eq!(v[0].as_deref(), Some("Alice"));
            assert_eq!(v[1].as_deref(), Some("Bob"));
        },
        other => panic!("expected the text column unchanged, got {:?}", other),
    }
    assert!(matches!(back.columns[2].data, ColumnData::Opaque(2)));
    assert!(matches!(back.columns[3].data, ColumnData::Opaque(2)));
}

#[test]
fn all_none_optional_column_round_trips() {
    let batch = Batch {
        columns: vec![utf8_col("maybe_date", vec![None, None, None])],
    };
    let mut signals = SignalMap::new();
    signals.set(String::from("maybe_date"), TemporalSignal::NativeDate);
    let native = reconcile_batch(batch, &signals).unwrap();
    match &native.columns[0].data {
        ColumnData::Date32(v) => assert_eq!(v, &vec![None, None, None]),
        other => panic!("expected a native date column, got {:?}", other),
    }
    let back = unreconcile_batch(native).unwrap();
    match &back.columns[0].data {
        ColumnData::Utf8(v) => assert_eq!(v, &vec![None, None, None]),
        other => panic!("expected text, got {:?}", other),
    }
}

#[test]
fn large_text_under_a_date_signal_converts_too() {
    let batch = Batch {
        columns: vec![Column {
            name: String::from("d"),
            nullable: true,
            data: ColumnData::LargeUtf8(vec![Some(String::from("2024-01-01"))]),
        }],
    };
    let mut signals = SignalMap::new();
    signals.set(String::from("d"), TemporalSignal::NativeDate);
    let out = reconcile_batch(batch, &signals).unwrap();
    match &out.columns[0].data {
        ColumnData::Date32(v) => assert_eq!(v, &vec![Some(19723)]),
        other => panic!("expected a native date column, got {:?}", other),
    }
}

#[test]
fn unparseable_datetime_fails_naming_the_text() {
    let batch = Batch {
        columns: vec![utf8_col("t", vec![Some("2023-06-15 14:30:00")])],
    };
    let mut signals = SignalMap::new();
    signals.set(String::from("t"), TemporalSignal::NativeNaiveDatetime);
    match reconcile_batch(batch, &signals) {
        Err(PolarsSerdeError::ConversionError { message }) => {
            assert_eq!(
                message,
                "Failed to parse datetime string: 2023-06-15 14:30:00"
            );
        },
        other => panic!("expected a conversion error, got {:?}", other),
    }
    let batch = Batch {
        columns: vec![utf8_col("u", vec![Some("2023-06-15T14:30:00")])],
    };
    let mut signals = SignalMap::new();
    signals.set(String::from("u"), TemporalSignal::NativeUtcDatetime);
    match reconcile_batch(batch, &signals) {
        Err(PolarsSerdeError::ConversionError { message }) => {
            assert_eq!(
                message,
                "Failed to parse UTC datetime string: 2023-06-15T14:30:00"
            );
        },
        other => panic!("expected a conversion error, got {:?}", other),
    }
}

#[test]
fn row_count_is_preserved() {
    let n = 10_000;
    let mut cells: Vec<Option<String>> = Vec::new();
    let mut names: Vec<Option<String>> = Vec::new();
    for i in 0..n {
        let days = (i as i32) - 5_000;
        let date = chrono::NaiveDate::from_ymd_opt(1970, 1, 1).unwrap()
            + chrono::Duration::days(days as i64);
        cells.push(Some(format!("{}", date.format("%Y-%m-%d"))));
        names.push(Some(format!("User_{}", i)));
    }
    let batch = Batch {
        columns: vec![
            Column {
                name: String::from("d"),
                nullable: false,
                data: ColumnData::Utf8(cells.clone()),
            },
            Column { name: String::from("name"), nullable: false, data: ColumnData::Utf8(names) },
        ],
    };
    let mut signals = SignalMap::new();
    signals.set(String::from("d"), TemporalSignal::NativeDate);
    let native = reconcile_batch(batch, &signals).unwrap();
    assert_eq!(native.height(), n);
    let back = unreconcile_batch(native).unwrap();
    assert_eq!(back.height(), n);
    match &back.columns[0].data {
        ColumnData::Utf8(v) => assert_eq!(v, &cells),
        other => panic!("expected text, got {:?}", other),
    }
}

#[test]
fn no_dictionary_column_survives_the_forward_pass() {
    let batch = Batch {
        columns: vec![
            Column {
                name: String::from("a"),
                nullable: true,
                data: ColumnData::DictUtf8(vec![Some(String::from("x")), Some(String::from("x"))]),
            },
            Column {
                name: String::from("b"),
                nullable: true,
                data: ColumnData::DictUtf8(vec![Some(String::from("1990-05-15")), None]),
            },
        ],
    };
    let mut signals = SignalMap::new();
    signals.set(String::from("b"), TemporalSignal::NativeDate);
    let out = reconcile_batch(batch, &signals).unwrap();
    for col in &out.columns {
        assert!(!matches!(col.data, ColumnData::DictUtf8(_)));
    }
    assert!(matches!(out.columns[0].data, ColumnData::Utf8(_)));
    assert!(matches!(out.columns[1].data, ColumnData::Date32(_)));
}

#[test]
fn wrong_physical_shape_under_a_date_signal_fails() {
    let batch = Batch {
        columns: vec![Column {
            name: String::from("d"),
            nullable: false,
            data: ColumnData::Int64(vec![Some(1)]),
        }],
    };
    let mut signals = SignalMap::new();
    signals.set(String::from("d"), TemporalSignal::NativeDate);
    match reconcile_batch(batch, &signals) {
        Err(PolarsSerdeError::ConversionError { message }) => {
            assert_eq!(
                message,
                "Expected string array (Utf8 or LargeUtf8) for date conversion"
            );
        },
        other => panic!("expected a conversion error, got {:?}", other),
    }
}

#[test]
fn native_date_already_in_place_is_kept() {
    let batch = Batch {
        columns: vec![Column {
            name: String::from("d"),
            nullable: false,
            data: ColumnData::Date32(vec![Some(7439)]),
        }],
    };
    let mut signals = SignalMap::new();
    signals.set(String::from("d"), TemporalSignal::NativeDate);
    let out = reconcile_batch(batch, &signals).unwrap();
    match &out.columns[0].data {
        ColumnData::Date32(v) => assert_eq!(v, &vec![Some(7439)]),
        other => panic!("expected the native date kept, got {:?}", other),
    }
}

#[test]
fn integer_day_counts_cast_to_native_dates() {
    let batch = Batch {
        columns: vec![Column {
            name: String::from("d"),
            nullable: false,
            data: ColumnData::Int32(vec![Some(0), Some(19723)]),
        }],
    };
    let mut signals = SignalMap::new();
    signals.set(String::from("d"), TemporalSignal::NativeDate);
    let out = reconcile_batch(batch, &signals).unwrap();
    match &out.columns[0].data {
        ColumnData::Date32(v) => assert_eq!(v, &vec![Some(0), Some(19723)]),
        other => panic!("expected a native date column, got {:?}", other),
    }
}

#[test]
fn decoding_a_frame_built_with_a_native_date_column() {
    // A frame authored directly in the engine with a native date column
    // and a string column decodes into date text the codec can parse.
    let batch = Batch {
        columns: vec![
            Column {
                name: String::from("name"),
                nullable: false,
                data: ColumnData::Utf8(vec![
                    Some(String::from("Alice")),
                    Some(String::from("Bob")),
                ]),
            },
            Column {
                name: String::from("birth_date"),
                nullable: false,
                data: ColumnData::Date32(vec![
                    Some(chrono_days(1990, 5, 15)),
                    Some(chrono_days(1985, 12, 3)),
                ]),
            },
        ],
    };
    let out = unreconcile_batch(batch).unwrap();
    match &out.columns[1].data {
        ColumnData::Utf8(v) => {
            assert_eq!(v[0].as_deref(), Some("1990-05-15"));
            assert_eq!(v[1].as_deref(), Some("1985-12-03"));
        },
        other => panic!("expected date text, got {:?}", other),
    }
}

#[test]
fn out_of_range_native_date_fails_with_its_value() {
    let batch = Batch {
        columns: vec![Column {
            name: String::from("d"),
            nullable: false,
            data: ColumnData::Date32(vec![Some(i32::MAX)]),
        }],
    };
    match unreconcile_batch(batch) {
        Err(PolarsSerdeError::ConversionError { message }) => {
            assert_eq!(message, "Date value out of range: 2147483647");
        },
        other => panic!("expected a conversion error, got {:?}", other),
    }
}

#[test]
fn millisecond_dates_decode_as_timestamp_text() {
    let batch = Batch {
        columns: vec![Column {
            name: String::from("d"),
            nullable: false,
            data: ColumnData::Date64(vec![Some(0), Some(86_400_000 + 1_500)]),
        }],
    };
    let out = unreconcile_batch(batch).unwrap();
    match &out.columns[0].data {
        ColumnData::Utf8(v) => {
            assert_eq!(v[0].as_deref(), Some("1970-01-01T00:00:00"));
            assert_eq!(v[1].as_deref(), Some("1970-01-02T00:00:01.500"));
        },
        other => panic!("expected timestamp text, got {:?}", other),
    }
}

#[test]
fn negative_millisecond_dates_decode_correctly() {
    let batch = Batch {
        columns: vec![Column {
            name: String::from("d"),
            nullable: false,
            data: ColumnData::Date64(vec![Some(-1), Some(-86_400_000)]),
        }],
    };
    let out = unreconcile_batch(batch).unwrap();
    match &out.columns[0].data {
        ColumnData::Utf8(v) => {
            assert_eq!(v[0].as_deref(), Some("1969-12-31T23:59:59.999"));
            assert_eq!(v[1].as_deref(), Some("1969-12-31T00:00:00"));
        },
        other => panic!("expected timestamp text, got {:?}", other),
    }
}

#[test]
fn out_of_range_millisecond_date_fails_with_its_value() {
    let batch = Batch {
        columns: vec![Column {
            name: String::from("d"),
            nullable: false,
            data: ColumnData::Date64(vec![Some(i64::MIN)]),
        }],
    };
    match unreconcile_batch(batch) {
        Err(PolarsSerdeError::ConversionError { message }) => {
            assert_eq!(
                message,
                "Date64 value out of range: -9223372036854775808"
            );
        },
        other => panic!("expected a conversion error, got {:?}", other),
    }
}

#[test]
fn error_messages_render_with_their_detail() {
    let e = PolarsSerdeError::InvalidRowCount { expected: 3, actual: 2 };
    assert_eq!(e.message(), "Invalid row count: expected 3, got 2");
    let e = PolarsSerdeError::ConversionError { message: String::from("boom") };
    assert_eq!(e.message(), "Conversion error: boom");
    let e = PolarsSerdeError::PolarsError(String::from("engine said no"));
    assert_eq!(e.message(), "Polars error: engine said no");
    let e = PolarsSerdeError::SerdeArrowError(String::from("codec said no"));
    assert_eq!(e.message(), "Serde Arrow error: codec said no");
    let e = PolarsSerdeError::ArrowError(String::from("array said no"));
    assert_eq!(e.message(), "Arrow error: array said no");
    let e = PolarsSerdeError::InterchangeError(String::from("bridge said no"));
    assert_eq!(e.message(), "Interchange error: bridge said no");
}
