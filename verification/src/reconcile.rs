//! The forward reconciler: rewrites text-encoded temporal columns into
//! native date and timestamp columns according to the detected signals, and
//! recasts dictionary-coded text columns to plain text.  Row count, column
//! order, names and nullability are preserved exactly.

use vstd::prelude::*;
use crate::batch::{Batch, Column, ColumnData};
use crate::datetext::{date_text_days, is_date_text, parse_date};
use crate::error::PolarsSerdeError;
use crate::signal::{SignalMap, TemporalSignal};
use crate::timetext::{
    is_naive_dt_text, is_rfc_text, naive_dt_nanos, naive_dt_representable, parse_naive_datetime,
    parse_rfc3339, rfc_nanos, rfc_representable,
};

verus! {

/// A text cell is acceptable for a temporal kind when it is null or parses
/// under that kind's grammar into a representable value.
pub open spec fn cell_ok(kind: TemporalSignal, c: Option<String>) -> bool {
    match c {
        None => true,
        Some(t) => match kind {
            TemporalSignal::NativeDate => is_date_text(t@),
            TemporalSignal::NativeNaiveDatetime => is_naive_dt_text(t@)
                && naive_dt_representable(t@),
            TemporalSignal::NativeUtcDatetime => is_rfc_text(t@) && rfc_representable(t@),
            TemporalSignal::UnrecognizedWrapper(_) => true,
        },
    }
}

pub open spec fn cells_ok(kind: TemporalSignal, cells: Seq<Option<String>>) -> bool {
    forall|j: int| 0 <= j < cells.len() ==> cell_ok(kind, #[trigger] cells[j])
}

/// The text of the first cell that fails the kind's grammar.
pub open spec fn first_bad_text(kind: TemporalSignal, cells: Seq<Option<String>>) -> Seq<char>
    decreases cells.len(),
{
    if cells.len() == 0 {
        Seq::empty()
    } else if !cell_ok(kind, cells[0]) {
        match cells[0] {
            Some(t) => t@,
            None => Seq::empty(),
        }
    } else {
        first_bad_text(kind, cells.drop_first())
    }
}

pub proof fn lemma_first_bad_text(kind: TemporalSignal, cells: Seq<Option<String>>, j: int)
    requires
        0 <= j < cells.len(),
        !cell_ok(kind, cells[j]),
        forall|k: int| 0 <= k < j ==> cell_ok(kind, #[trigger] cells[k]),
    ensures
        first_bad_text(kind, cells) == match cells[j] {
            Some(t) => t@,
            None => Seq::<char>::empty(),
        },
    decreases j,
{
    if j > 0 {
        assert(cell_ok(kind, cells[0]));
        lemma_first_bad_text(kind, cells.drop_first(), j - 1);
        assert(cells.drop_first()[j - 1] == cells[j]);
    }
}

/// Day counts parsed from text cells, null for null.
pub open spec fn dates_of_texts(texts: Seq<Option<String>>, out: Seq<Option<i32>>) -> bool {
    &&& out.len() == texts.len()
    &&& forall|j: int|
        0 <= j < texts.len() ==> match #[trigger] texts[j] {
            None => out[j] is None,
            Some(t) => out[j] matches Some(d) && is_date_text(t@) && d == date_text_days(t@),
        }
}

/// Nanosecond counts parsed from text cells under the naive or RFC grammar.
pub open spec fn nanos_of_texts(texts: Seq<Option<String>>, out: Seq<Option<i64>>, utc: bool) -> bool {
    &&& out.len() == texts.len()
    &&& forall|j: int|
        0 <= j < texts.len() ==> match #[trigger] texts[j] {
            None => out[j] is None,
            Some(t) => out[j] matches Some(n) && if utc {
                is_rfc_text(t@) && rfc_representable(t@) && n == rfc_nanos(t@)
            } else {
                is_naive_dt_text(t@) && naive_dt_representable(t@) && n == naive_dt_nanos(t@)
            },
        }
}

/// Parses every non-null text cell as a calendar date.  Fails on the first
/// unparseable cell, naming its text.
fn texts_to_dates(cells: &Vec<Option<String>>) -> (r: Result<Vec<Option<i32>>, PolarsSerdeError>)
    ensures
        match r {
            Ok(out) => cells_ok(TemporalSignal::NativeDate, cells@) && dates_of_texts(
                cells@,
                out@,
            ),
            Err(e) => !cells_ok(TemporalSignal::NativeDate, cells@) && (e matches
                PolarsSerdeError::ConversionError { message } && message@
                == "Failed to parse date string: "@ + first_bad_text(
                TemporalSignal::NativeDate,
                cells@,
            )),
        },
{
    let mut out: Vec<Option<i32>> = Vec::new();
    let n = cells.len();
    let mut i: usize = 0;
    while i < n
        invariant
            i <= n == cells@.len(),
            out@.len() == i,
            forall|k: int| 0 <= k < i ==> cell_ok(TemporalSignal::NativeDate, #[trigger] cells@[k]),
            forall|k: int|
                0 <= k < i ==> match #[trigger] cells@[k] {
                    None => out@[k] is None,
                    Some(t) => out@[k] matches Some(d) && is_date_text(t@) && d == date_text_days(
                        t@,
                    ),
                },
        decreases n - i,
    {
        match &cells[i] {
            None => {
                out.push(None);
            },
            Some(t) => {
                match parse_date(t.as_str()) {
                    Some(d) => {
                        out.push(Some(d));
                    },
                    None => {
                        proof {
                            lemma_first_bad_text(TemporalSignal::NativeDate, cells@, i as int);
                        }
                        let mut message = String::new();
                        message.append("Failed to parse date string: ");
                        message.append(t.as_str());
                        proof {
                            assert(message@ =~= "Failed to parse date string: "@ + first_bad_text(
                                TemporalSignal::NativeDate,
                                cells@,
                            ));
                        }
                        return Err(PolarsSerdeError::ConversionError { message });
                    },
                }
            },
        }
        i = i + 1;
    }
    Ok(out)
}

/// Parses every non-null text cell as a timestamp, under the RFC 3339
/// grammar when `utc` is set and the timezone-naive grammar otherwise.
fn texts_to_nanos(cells: &Vec<Option<String>>, utc: bool) -> (r: Result<
    Vec<Option<i64>>,
    PolarsSerdeError,
>)
    ensures
        match r {
            Ok(out) => {
                &&& cells_ok(
                    if utc {
                        TemporalSignal::NativeUtcDatetime
                    } else {
                        TemporalSignal::NativeNaiveDatetime
                    },
                    cells@,
                )
                &&& nanos_of_texts(cells@, out@, utc)
            },
            Err(e) => {
                let kind = if utc {
                    TemporalSignal::NativeUtcDatetime
                } else {
                    TemporalSignal::NativeNaiveDatetime
                };
                &&& !cells_ok(kind, cells@)
                &&& (e matches PolarsSerdeError::ConversionError { message } && message@ == (
                if utc {
                    "Failed to parse UTC datetime string: "@
                } else {
                    "Failed to parse datetime string: "@
                }) + first_bad_text(kind, cells@))
            },
        },
{
    let ghost kind = if utc {
        TemporalSignal::NativeUtcDatetime
    } else {
        TemporalSignal::NativeNaiveDatetime
    };
    let mut out: Vec<Option<i64>> = Vec::new();
    let n = cells.len();
    let mut i: usize = 0;
    while i < n
        invariant
            i <= n == cells@.len(),
            out@.len() == i,
            kind == (if utc {
                TemporalSignal::NativeUtcDatetime
            } else {
                TemporalSignal::NativeNaiveDatetime
            }),
            forall|k: int| 0 <= k < i ==> cell_ok(kind, #[trigger] cells@[k]),
            forall|k: int|
                0 <= k < i ==> match #[trigger] cells@[k] {
                    None => out@[k] is None,
                    Some(t) => out@[k] matches Some(nv) && if utc {
                        is_rfc_text(t@) && rfc_representable(t@) && nv == rfc_nanos(t@)
                    } else {
                        is_naive_dt_text(t@) && naive_dt_representable(t@) && nv == naive_dt_nanos(
                            t@,
                        )
                    },
                },
        decreases n - i,
    {
        match &cells[i] {
            None => {
                out.push(None);
            },
            Some(t) => {
                let parsed: Option<i64> = if utc {
                    parse_rfc3339(t.as_str())
                } else {
                    parse_naive_datetime(t.as_str())
                };
                match parsed {
                    Some(nv) => {
                        out.push(Some(nv));
                    },
                    None => {
                        proof {
                            lemma_first_bad_text(kind, cells@, i as int);
                        }
                        let mut message = String::new();
                        if utc {
                            message.append("Failed to parse UTC datetime string: ");
                        } else {
                            message.append("Failed to parse datetime string: ");
                        }
                        message.append(t.as_str());
                        proof {
                            assert(message@ =~= (if utc {
                                "Failed to parse UTC datetime string: "@
                            } else {
                                "Failed to parse datetime string: "@
                            }) + first_bad_text(kind, cells@));
                        }
                        return Err(PolarsSerdeError::ConversionError { message });
                    },
                }
            },
        }
        i = i + 1;
    }
    Ok(out)
}

/// Whether the forward pass succeeds on one column under its signal.
pub open spec fn column_forward_ok(c: Column, sig: Option<TemporalSignal>) -> bool {
    match sig {
        None => true,
        Some(k) => match k {
            TemporalSignal::UnrecognizedWrapper(_) => true,
            TemporalSignal::NativeDate => match c.data {
                ColumnData::Utf8(v) => cells_ok(k, v@),
                ColumnData::LargeUtf8(v) => cells_ok(k, v@),
                ColumnData::DictUtf8(v) => cells_ok(k, v@),
                ColumnData::Int32(_) => true,
                ColumnData::Date32(_) => true,
                _ => false,
            },
            _ => match c.data {
                ColumnData::Utf8(v) => cells_ok(k, v@),
                ColumnData::LargeUtf8(v) => cells_ok(k, v@),
                ColumnData::DictUtf8(v) => cells_ok(k, v@),
                ColumnData::Int64(_) => true,
                ColumnData::TimestampNanos(_, _) => true,
                _ => false,
            },
        },
    }
}

/// What the forward pass makes of one column: temporal rewrites under a
/// native signal, dictionary normalization otherwise, everything else kept.
pub open spec fn column_forward_rel(pre: Column, sig: Option<TemporalSignal>, post: Column) -> bool {
    &&& post.name@ == pre.name@
    &&& post.nullable == pre.nullable
    &&& post.data.spec_len() == pre.data.spec_len()
    &&& match sig {
        None => dict_normal_rel(pre.data, post.data),
        Some(k) => match k {
            TemporalSignal::UnrecognizedWrapper(_) => dict_normal_rel(pre.data, post.data),
            TemporalSignal::NativeDate => match pre.data {
                ColumnData::Utf8(v) => post.data matches ColumnData::Date32(out)
                    && dates_of_texts(v@, out@),
                ColumnData::LargeUtf8(v) => post.data matches ColumnData::Date32(out)
                    && dates_of_texts(v@, out@),
                ColumnData::DictUtf8(v) => post.data matches ColumnData::Date32(out)
                    && dates_of_texts(v@, out@),
                ColumnData::Int32(v) => post.data matches ColumnData::Date32(out) && out@ == v@,
                ColumnData::Date32(v) => post.data matches ColumnData::Date32(out) && out@ == v@,
                _ => false,
            },
            TemporalSignal::NativeNaiveDatetime => match pre.data {
                ColumnData::Utf8(v) => post.data matches ColumnData::TimestampNanos(out, z)
                    && nanos_of_texts(v@, out@, false) && z is None,
                ColumnData::LargeUtf8(v) => post.data matches ColumnData::TimestampNanos(out, z)
                    && nanos_of_texts(v@, out@, false) && z is None,
                ColumnData::DictUtf8(v) => post.data matches ColumnData::TimestampNanos(out, z)
                    && nanos_of_texts(v@, out@, false) && z is None,
                ColumnData::Int64(v) => post.data matches ColumnData::TimestampNanos(out, z)
                    && out@ == v@ && z is None,
                ColumnData::TimestampNanos(v, _) => post.data matches ColumnData::TimestampNanos(
                    out,
                    z,
                ) && out@ == v@ && z is None,
                _ => false,
            },
            TemporalSignal::NativeUtcDatetime => match pre.data {
                ColumnData::Utf8(v) => post.data matches ColumnData::TimestampNanos(out, z)
                    && nanos_of_texts(v@, out@, true) && utc_zone(z),
                ColumnData::LargeUtf8(v) => post.data matches ColumnData::TimestampNanos(out, z)
                    && nanos_of_texts(v@, out@, true) && utc_zone(z),
                ColumnData::DictUtf8(v) => post.data matches ColumnData::TimestampNanos(out, z)
                    && nanos_of_texts(v@, out@, true) && utc_zone(z),
                ColumnData::Int64(v) => post.data matches ColumnData::TimestampNanos(out, z)
                    && out@ == v@ && utc_zone(z),
                ColumnData::TimestampNanos(v, _) => post.data matches ColumnData::TimestampNanos(
                    out,
                    z,
                ) && out@ == v@ && utc_zone(z),
                _ => false,
            },
        },
    }
}

pub open spec fn utc_zone(z: Option<String>) -> bool {
    z matches Some(zz) && zz@ == "UTC"@
}

/// Without a native signal only dictionary-coded text changes, to plain text.
pub open spec fn dict_normal_rel(pre: ColumnData, post: ColumnData) -> bool {
    match pre {
        ColumnData::DictUtf8(v) => post matches ColumnData::Utf8(out) && out@ == v@,
        _ => post == pre,
    }
}

/// The message the forward pass reports for a column it cannot reconcile.
pub open spec fn column_forward_err(c: Column, sig: Option<TemporalSignal>) -> Seq<char> {
    match sig {
        Some(TemporalSignal::NativeDate) => match c.data {
            ColumnData::Utf8(v) => "Failed to parse date string: "@ + first_bad_text(
                TemporalSignal::NativeDate,
                v@,
            ),
            ColumnData::LargeUtf8(v) => "Failed to parse date string: "@ + first_bad_text(
                TemporalSignal::NativeDate,
                v@,
            ),
            ColumnData::DictUtf8(v) => "Failed to parse date string: "@ + first_bad_text(
                TemporalSignal::NativeDate,
                v@,
            ),
            _ => "Expected string array (Utf8 or LargeUtf8) for date conversion"@,
        },
        Some(TemporalSignal::NativeNaiveDatetime) => match c.data {
            ColumnData::Utf8(v) => "Failed to parse datetime string: "@ + first_bad_text(
                TemporalSignal::NativeNaiveDatetime,
                v@,
            ),
            ColumnData::LargeUtf8(v) => "Failed to parse datetime string: "@ + first_bad_text(
                TemporalSignal::NativeNaiveDatetime,
                v@,
            ),
            ColumnData::DictUtf8(v) => "Failed to parse datetime string: "@ + first_bad_text(
                TemporalSignal::NativeNaiveDatetime,
                v@,
            ),
            _ => "Expected string array (Utf8 or LargeUtf8) for datetime conversion"@,
        },
        Some(TemporalSignal::NativeUtcDatetime) => match c.data {
            ColumnData::Utf8(v) => "Failed to parse UTC datetime string: "@ + first_bad_text(
                TemporalSignal::NativeUtcDatetime,
                v@,
            ),
            ColumnData::LargeUtf8(v) => "Failed to parse UTC datetime string: "@ + first_bad_text(
                TemporalSignal::NativeUtcDatetime,
                v@,
            ),
            ColumnData::DictUtf8(v) => "Failed to parse UTC datetime string: "@ + first_bad_text(
                TemporalSignal::NativeUtcDatetime,
                v@,
            ),
            _ => "Expected string array (Utf8 or LargeUtf8) for datetime conversion"@,
        },
        _ => Seq::empty(),
    }
}

pub open spec fn deref_sig(sig: Option<&TemporalSignal>) -> Option<TemporalSignal> {
    match sig {
        Some(s) => Some(*s),
        None => None,
    }
}

/// Reconciles one column under its signal.
fn reconcile_column(col: Column, sig: Option<&TemporalSignal>) -> (r: Result<
    Column,
    PolarsSerdeError,
>)
    ensures
        match r {
            Ok(out) => column_forward_ok(col, deref_sig(sig)) && column_forward_rel(
                col,
                deref_sig(sig),
                out,
            ) && !(out.data is DictUtf8),
            Err(e) => !column_forward_ok(col, deref_sig(sig)) && (e matches
                PolarsSerdeError::ConversionError { message } && message@ == column_forward_err(
                col,
                deref_sig(sig),
            )),
        },
{
    let Column { name, nullable, data } = col;
    match sig {
        Some(TemporalSignal::NativeDate) => {
            match data {
                ColumnData::Utf8(v) => match texts_to_dates(&v) {
                    Ok(out) => Ok(
                        Column { name, nullable, data: ColumnData::Date32(out) },
                    ),
                    Err(e) => Err(e),
                },
                ColumnData::LargeUtf8(v) => match texts_to_dates(&v) {
                    Ok(out) => Ok(
                        Column { name, nullable, data: ColumnData::Date32(out) },
                    ),
                    Err(e) => Err(e),
                },
                ColumnData::DictUtf8(v) => match texts_to_dates(&v) {
                    Ok(out) => Ok(
                        Column { name, nullable, data: ColumnData::Date32(out) },
                    ),
                    Err(e) => Err(e),
                },
                ColumnData::Int32(v) => Ok(
                    Column { name, nullable, data: ColumnData::Date32(v) },
                ),
                ColumnData::Date32(v) => Ok(
                    Column { name, nullable, data: ColumnData::Date32(v) },
                ),
                _ => {
                    let mut message = String::new();
                    message.append("Expected string array (Utf8 or LargeUtf8) for date conversion");
                    proof {
                        assert(message@ =~= "Expected string array (Utf8 or LargeUtf8) for date conversion"@);
                    }
                    Err(PolarsSerdeError::ConversionError { message })
                },
            }
        },
        Some(TemporalSignal::NativeNaiveDatetime) => {
            match data {
                ColumnData::Utf8(v) => match texts_to_nanos(&v, false) {
                    Ok(out) => Ok(
                        Column { name, nullable, data: ColumnData::TimestampNanos(out, None) },
                    ),
                    Err(e) => Err(e),
                },
                ColumnData::LargeUtf8(v) => match texts_to_nanos(&v, false) {
                    Ok(out) => Ok(
                        Column { name, nullable, data: ColumnData::TimestampNanos(out, None) },
                    ),
                    Err(e) => Err(e),
                },
                ColumnData::DictUtf8(v) => match texts_to_nanos(&v, false) {
                    Ok(out) => Ok(
                        Column { name, nullable, data: ColumnData::TimestampNanos(out, None) },
                    ),
                    Err(e) => Err(e),
                },
                ColumnData::Int64(v) => Ok(
                    Column { name, nullable, data: ColumnData::TimestampNanos(v, None) },
                ),
                ColumnData::TimestampNanos(v, _) => Ok(
                    Column { name, nullable, data: ColumnData::TimestampNanos(v, None) },
                ),
                _ => {
                    let mut message = String::new();
                    message.append(
                        "Expected string array (Utf8 or LargeUtf8) for datetime conversion",
                    );
                    proof {
                        assert(message@ =~= "Expected string array (Utf8 or LargeUtf8) for datetime conversion"@);
                    }
                    Err(PolarsSerdeError::ConversionError { message })
                },
            }
        },
        Some(TemporalSignal::NativeUtcDatetime) => {
            match data {
                ColumnData::Utf8(v) => match texts_to_nanos(&v, true) {
                    Ok(out) => Ok(
                        Column {
                            name,
                            nullable,
                            data: ColumnData::TimestampNanos(out, Some(String::from_str("UTC"))),
                        },
                    ),
                    Err(e) => Err(e),
                },
                ColumnData::LargeUtf8(v) => match texts_to_nanos(&v, true) {
                    Ok(out) => Ok(
                        Column {
                            name,
                            nullable,
                            data: ColumnData::TimestampNanos(out, Some(String::from_str("UTC"))),
                        },
                    ),
                    Err(e) => Err(e),
                },
                ColumnData::DictUtf8(v) => match texts_to_nanos(&v, true) {
                    Ok(out) => Ok(
                        Column {
                            name,
                            nullable,
                            data: ColumnData::TimestampNanos(out, Some(String::from_str("UTC"))),
                        },
                    ),
                    Err(e) => Err(e),
                },
                ColumnData::Int64(v) => Ok(
                    Column {
                        name,
                        nullable,
                        data: ColumnData::TimestampNanos(v, Some(String::from_str("UTC"))),
                    },
                ),
                ColumnData::TimestampNanos(v, _) => Ok(
                    Column {
                        name,
                        nullable,
                        data: ColumnData::TimestampNanos(v, Some(String::from_str("UTC"))),
                    },
                ),
                _ => {
                    let mut message = String::new();
                    message.append(
                        "Expected string array (Utf8 or LargeUtf8) for datetime conversion",
                    );
                    proof {
                        assert(message@ =~= "Expected string array (Utf8 or LargeUtf8) for datetime conversion"@);
                    }
                    Err(PolarsSerdeError::ConversionError { message })
                },
            }
        },
        _ => {
            match data {
                ColumnData::DictUtf8(v) => Ok(
                    Column { name, nullable, data: ColumnData::Utf8(v) },
                ),
                other => Ok(Column { name, nullable, data: other }),
            }
        },
    }
}

/// The whole forward pass, §4.3 of the design: every column with a native
/// temporal signal is rewritten to its native physical type, every
/// dictionary-coded text column becomes plain text, and everything else is
/// kept.  Fails on the first column that cannot be reconciled, naming it.
pub fn reconcile_batch(batch: Batch, signals: &SignalMap) -> (r: Result<Batch, PolarsSerdeError>)
    ensures
        match r {
            Ok(out) => {
                &&& out.columns@.len() == batch.columns@.len()
                &&& forall|i: int|
                    0 <= i < batch.columns@.len() ==> column_forward_ok(
                        #[trigger] batch.columns@[i],
                        signals.spec_get(batch.columns@[i].name@),
                    )
                &&& forall|i: int|
                    0 <= i < batch.columns@.len() ==> column_forward_rel(
                        #[trigger] batch.columns@[i],
                        signals.spec_get(batch.columns@[i].name@),
                        out.columns@[i],
                    )
                &&& forall|i: int|
                    0 <= i < out.columns@.len() ==> !((#[trigger] out.columns@[i]).data
                        is DictUtf8)
                &&& (batch.wf() ==> out.wf() && out.spec_height() == batch.spec_height())
            },
            Err(e) => exists|i: int|
                0 <= i < batch.columns@.len() && !column_forward_ok(
                    #[trigger] batch.columns@[i],
                    signals.spec_get(batch.columns@[i].name@),
                ) && (forall|k: int|
                    0 <= k < i ==> column_forward_ok(
                        #[trigger] batch.columns@[k],
                        signals.spec_get(batch.columns@[k].name@),
                    )) && (e matches PolarsSerdeError::ConversionError { message } && message@
                    == column_forward_err(
                    batch.columns@[i],
                    signals.spec_get(batch.columns@[i].name@),
                )),
        },
{
    let ghost orig = batch.columns@;
    let mut cols = batch.columns;
    let mut out: Vec<Column> = Vec::new();
    while cols.len() > 0
        invariant
            batch.columns@ == orig,
            out@.len() + cols@.len() == orig.len(),
            cols@ =~= orig.subrange(out@.len() as int, orig.len() as int),
            forall|k: int|
                0 <= k < out@.len() ==> column_forward_ok(
                    #[trigger] orig[k],
                    signals.spec_get(orig[k].name@),
                ),
            forall|k: int|
                0 <= k < out@.len() ==> column_forward_rel(
                    #[trigger] orig[k],
                    signals.spec_get(orig[k].name@),
                    out@[k],
                ),
            forall|k: int| 0 <= k < out@.len() ==> !((#[trigger] out@[k]).data is DictUtf8),
        decreases cols.len(),
    {
        let ghost i = out@.len() as int;
        let col = cols.remove(0);
        proof {
            assert(col == orig[i]);
            assert(cols@ =~= orig.subrange(i + 1, orig.len() as int));
        }
        let sig = signals.get(col.name.as_str());
        proof {
            match sig {
                Some(s) => {
                    assert(deref_sig(sig) == signals.spec_get(orig[i].name@));
                },
                None => {
                    assert(deref_sig(sig) == signals.spec_get(orig[i].name@));
                },
            }
        }
        match reconcile_column(col, sig) {
            Ok(c2) => {
                out.push(c2);
            },
            Err(e) => {
                proof {
                    assert(batch.columns@ == orig);
                    assert(0 <= i < batch.columns@.len() && !column_forward_ok(
                        batch.columns@[i],
                        signals.spec_get(batch.columns@[i].name@),
                    ));
                    assert(forall|k: int|
                        0 <= k < i ==> column_forward_ok(
                            #[trigger] batch.columns@[k],
                            signals.spec_get(batch.columns@[k].name@),
                        ));
                }
                return Err(e);
            },
        }
    }
    let result = Batch { columns: out };
    proof {
        if batch.wf() {
            assert forall|i: int|
                0 <= i < result.columns@.len() implies (#[trigger] result.columns@[i]).data.spec_len()
                == result.spec_height() by {
                assert(column_forward_rel(
                    orig[i],
                    signals.spec_get(orig[i].name@),
                    result.columns@[i],
                ));
                if result.columns@.len() > 0 {
                    assert(column_forward_rel(
                        orig[0],
                        signals.spec_get(orig[0].name@),
                        result.columns@[0],
                    ));
                }
            }
        }
    }
    Ok(result)
}

/// A conversion must be given at least one record.
pub fn require_non_empty(count: usize) -> (r: Result<(), PolarsSerdeError>)
    ensures
        r is Ok <==> count > 0,
        count == 0 ==> (r matches Err(e) && e is EmptyInput),
{
    if count == 0 {
        Err(PolarsSerdeError::EmptyInput)
    } else {
        Ok(())
    }
}

} // verus!
