//! The reverse reconciler: rewrites native temporal columns back into the
//! exact textual forms the row codec can decode — calendar-date text for
//! day-precision dates, canonical timestamp text for nanosecond timestamps
//! (RFC 3339 when the column carries a zone), and millisecond-precision
//! dates as timestamp text.  All other columns pass through unchanged.

use vstd::prelude::*;
use crate::batch::{Batch, Column, ColumnData};
use crate::calendar::{day_count_in_range, days_before_year, days_before_year_exec, days_from_civil_exec, lemma_days_before_year_bounds};
use crate::datetext::{date_text_days, format_date, is_date_text};
use crate::digits::{dec_seq_signed, push_dec_i64};
use crate::error::PolarsSerdeError;
use crate::timetext::{
    format_naive_datetime, format_rfc3339_utc, naive_dt_canonical, naive_dt_nanos,
    rfc_canonical_utc, rfc_nanos, NANOS_PER_DAY, NANOS_PER_SEC,
};

verus! {

pub const MS_PER_DAY: i64 = 86_400_000;

/// A day-count cell can be written as date text.
pub open spec fn day_cell_ok(c: Option<i32>) -> bool {
    match c {
        None => true,
        Some(d) => day_count_in_range(d as int),
    }
}

pub open spec fn day_cells_ok(cells: Seq<Option<i32>>) -> bool {
    forall|j: int| 0 <= j < cells.len() ==> day_cell_ok(#[trigger] cells[j])
}

/// A millisecond-count cell falls on a representable calendar day.
pub open spec fn ms_cell_ok(c: Option<i64>) -> bool {
    match c {
        None => true,
        Some(m) => day_count_in_range(m as int / (MS_PER_DAY as int)),
    }
}

pub open spec fn ms_cells_ok(cells: Seq<Option<i64>>) -> bool {
    forall|j: int| 0 <= j < cells.len() ==> ms_cell_ok(#[trigger] cells[j])
}

/// The value of the first out-of-range day-count cell.
pub open spec fn first_bad_day(cells: Seq<Option<i32>>) -> int
    decreases cells.len(),
{
    if cells.len() == 0 {
        0
    } else if !day_cell_ok(cells[0]) {
        match cells[0] {
            Some(d) => d as int,
            None => 0,
        }
    } else {
        first_bad_day(cells.drop_first())
    }
}

pub proof fn lemma_first_bad_day(cells: Seq<Option<i32>>, j: int)
    requires
        0 <= j < cells.len(),
        !day_cell_ok(cells[j]),
        forall|k: int| 0 <= k < j ==> day_cell_ok(#[trigger] cells[k]),
    ensures
        first_bad_day(cells) == match cells[j] {
            Some(d) => d as int,
            None => 0,
        },
    decreases j,
{
    if j > 0 {
        assert(day_cell_ok(cells[0]));
        lemma_first_bad_day(cells.drop_first(), j - 1);
        assert(cells.drop_first()[j - 1] == cells[j]);
    }
}

/// The value of the first out-of-range millisecond-count cell.
pub open spec fn first_bad_ms(cells: Seq<Option<i64>>) -> int
    decreases cells.len(),
{
    if cells.len() == 0 {
        0
    } else if !ms_cell_ok(cells[0]) {
        match cells[0] {
            Some(m) => m as int,
            None => 0,
        }
    } else {
        first_bad_ms(cells.drop_first())
    }
}

pub proof fn lemma_first_bad_ms(cells: Seq<Option<i64>>, j: int)
    requires
        0 <= j < cells.len(),
        !ms_cell_ok(cells[j]),
        forall|k: int| 0 <= k < j ==> ms_cell_ok(#[trigger] cells[k]),
    ensures
        first_bad_ms(cells) == match cells[j] {
            Some(m) => m as int,
            None => 0,
        },
    decreases j,
{
    if j > 0 {
        assert(ms_cell_ok(cells[0]));
        lemma_first_bad_ms(cells.drop_first(), j - 1);
        assert(cells.drop_first()[j - 1] == cells[j]);
    }
}

/// Date text cells written from day counts, null for null.
pub open spec fn texts_of_dates(days: Seq<Option<i32>>, out: Seq<Option<String>>) -> bool {
    &&& out.len() == days.len()
    &&& forall|j: int|
        0 <= j < days.len() ==> match #[trigger] days[j] {
            None => out[j] is None,
            Some(d) => out[j] matches Some(t) && is_date_text(t@) && date_text_days(t@) == d,
        }
}

/// Canonical timestamp text cells written from nanosecond counts.
pub open spec fn texts_of_nanos(ns: Seq<Option<i64>>, out: Seq<Option<String>>, utc: bool) -> bool {
    &&& out.len() == ns.len()
    &&& forall|j: int|
        0 <= j < ns.len() ==> match #[trigger] ns[j] {
            None => out[j] is None,
            Some(n) => out[j] matches Some(t) && if utc {
                rfc_canonical_utc(t@) && rfc_nanos(t@) == n
            } else {
                naive_dt_canonical(t@) && naive_dt_nanos(t@) == n
            },
        }
}

/// Canonical timestamp text cells written from millisecond counts.
pub open spec fn texts_of_ms(ms: Seq<Option<i64>>, out: Seq<Option<String>>) -> bool {
    &&& out.len() == ms.len()
    &&& forall|j: int|
        0 <= j < ms.len() ==> match #[trigger] ms[j] {
            None => out[j] is None,
            Some(m) => out[j] matches Some(t) && naive_dt_canonical(t@) && naive_dt_nanos(t@) == m
                * 1000000,
        }
}

/// Writes one millisecond count as canonical timestamp text, or reports
/// that its day is out of range.
#[verifier::rlimit(50)]
fn ms_to_text(ms: i64) -> (r: Option<String>)
    ensures
        match r {
            Some(t) => ms_cell_ok(Some(ms)) && naive_dt_canonical(t@) && naive_dt_nanos(t@) == ms
                * 1000000,
            None => !ms_cell_ok(Some(ms)),
        },
{
    let epoch_days: u32 = days_before_year_exec(1970);
    proof {
        lemma_days_before_year_bounds(1970);
    }
    let u: i128 = ms as i128 + (epoch_days as i128) * (MS_PER_DAY as i128);
    let mpd: i128 = MS_PER_DAY as i128;
    if u < 0 {
        proof {
            vstd::arithmetic::div_mod::lemma_fundamental_div_mod(ms as int, MS_PER_DAY as int);
            vstd::arithmetic::div_mod::lemma_mod_division_less_than_divisor(
                ms as int,
                MS_PER_DAY as int,
            );
            assert(!day_count_in_range(ms as int / (MS_PER_DAY as int)));
        }
        return None;
    }
    let du: i128 = u / mpd;
    let rem_ms: i128 = u % mpd;
    proof {
        vstd::arithmetic::div_mod::lemma_fundamental_div_mod(u as int, mpd as int);
        vstd::arithmetic::div_mod::lemma_mod_division_less_than_divisor(u as int, mpd as int);
        vstd::arithmetic::div_mod::lemma_div_pos_is_pos(u as int, mpd as int);
        assert(ms as int == (MS_PER_DAY as int) * (du - epoch_days) + rem_ms);
        vstd::arithmetic::div_mod::lemma_fundamental_div_mod_converse(
            ms as int,
            MS_PER_DAY as int,
            du as int - epoch_days as int,
            rem_ms as int,
        );
    }
    let day128: i128 = du - epoch_days as i128;
    let maxd: i32 = days_from_civil_exec(9999, 12, 31);
    if day128 > maxd as i128 {
        return None;
    }
    let day: i32 = day128 as i32;
    proof {
        assert(day as int == ms as int / (MS_PER_DAY as int));
        assert(day_count_in_range(day as int));
    }
    let rem: i64 = rem_ms as i64;
    let secs: i64 = rem / 1000;
    let msub: i64 = rem % 1000;
    let h: i64 = secs / 3600;
    let srem: i64 = secs % 3600;
    let mi: i64 = srem / 60;
    let ss: i64 = srem % 60;
    proof {
        vstd::arithmetic::div_mod::lemma_fundamental_div_mod(rem as int, 1000);
        vstd::arithmetic::div_mod::lemma_mod_division_less_than_divisor(rem as int, 1000);
        vstd::arithmetic::div_mod::lemma_fundamental_div_mod(secs as int, 3600);
        vstd::arithmetic::div_mod::lemma_mod_division_less_than_divisor(secs as int, 3600);
        vstd::arithmetic::div_mod::lemma_fundamental_div_mod(srem as int, 60);
        vstd::arithmetic::div_mod::lemma_mod_division_less_than_divisor(srem as int, 60);
        assert(secs < 86400);
        assert(h <= 23);
    }
    let f: u32 = (msub as u32) * 1_000_000;
    let t = crate::timetext::format_dt_pieces(day, h as u32, mi as u32, ss as u32, f);
    proof {
        assert(naive_dt_nanos(t@) == ms * 1000000) by {
            assert(rem == secs * 1000 + msub);
            assert(ms as int == day * (MS_PER_DAY as int) + rem);
            assert(secs == h * 3600 + mi * 60 + ss) by {
                assert(secs == h * 3600 + srem);
                assert(srem == mi * 60 + ss);
            }
            assert(naive_dt_nanos(t@) == day * NANOS_PER_DAY + (h * 3600 + mi * 60 + ss) * (
            NANOS_PER_SEC as int) + f);
            assert((day * (MS_PER_DAY as int) + (h * 3600 + mi * 60 + ss) * 1000 + msub) * 1000000
                == day * (NANOS_PER_DAY as int) + (h * 3600 + mi * 60 + ss) * (NANOS_PER_SEC as int)
                + msub * 1000000) by (nonlinear_arith);
        }
    }
    Some(t)
}

/// Whether the reverse pass succeeds on one column.
pub open spec fn column_reverse_ok(c: Column) -> bool {
    match c.data {
        ColumnData::Date32(v) => day_cells_ok(v@),
        ColumnData::Date64(v) => ms_cells_ok(v@),
        _ => true,
    }
}

/// What the reverse pass makes of one column.
pub open spec fn column_reverse_rel(pre: Column, post: Column) -> bool {
    &&& post.name@ == pre.name@
    &&& post.nullable == pre.nullable
    &&& post.data.spec_len() == pre.data.spec_len()
    &&& match pre.data {
        ColumnData::Date32(v) => post.data matches ColumnData::Utf8(out) && texts_of_dates(
            v@,
            out@,
        ),
        ColumnData::TimestampNanos(v, z) => post.data matches ColumnData::Utf8(out)
            && texts_of_nanos(v@, out@, z is Some),
        ColumnData::Date64(v) => post.data matches ColumnData::Utf8(out) && texts_of_ms(v@, out@),
        _ => post.data == pre.data,
    }
}

/// The message the reverse pass reports for a column it cannot write out.
pub open spec fn column_reverse_err(c: Column) -> Seq<char> {
    match c.data {
        ColumnData::Date32(v) => "Date value out of range: "@ + dec_seq_signed(first_bad_day(v@)),
        ColumnData::Date64(v) => "Date64 value out of range: "@ + dec_seq_signed(first_bad_ms(v@)),
        _ => Seq::empty(),
    }
}

/// Writes day-count cells as date text.  Fails on the first out-of-range
/// cell, naming its value.
fn dates_to_texts(cells: &Vec<Option<i32>>) -> (r: Result<Vec<Option<String>>, PolarsSerdeError>)
    ensures
        match r {
            Ok(out) => day_cells_ok(cells@) && texts_of_dates(cells@, out@),
            Err(e) => !day_cells_ok(cells@) && (e matches PolarsSerdeError::ConversionError {
                message,
            } && message@ == "Date value out of range: "@ + dec_seq_signed(first_bad_day(cells@))),
        },
{
    let mind: i32 = days_from_civil_exec(0, 1, 1);
    let maxd: i32 = days_from_civil_exec(9999, 12, 31);
    let mut out: Vec<Option<String>> = Vec::new();
    let n = cells.len();
    let mut i: usize = 0;
    while i < n
        invariant
            i <= n == cells@.len(),
            out@.len() == i,
            mind == crate::calendar::days_from_civil(0, 1, 1),
            maxd == crate::calendar::days_from_civil(9999, 12, 31),
            forall|k: int| 0 <= k < i ==> day_cell_ok(#[trigger] cells@[k]),
            forall|k: int|
                0 <= k < i ==> match #[trigger] cells@[k] {
                    None => out@[k] is None,
                    Some(d) => out@[k] matches Some(t) && is_date_text(t@) && date_text_days(t@)
                        == d,
                },
        decreases n - i,
    {
        match &cells[i] {
            None => {
                out.push(None);
            },
            Some(d) => {
                if *d < mind || *d > maxd {
                    proof {
                        lemma_first_bad_day(cells@, i as int);
                    }
                    let mut message = String::new();
                    message.append("Date value out of range: ");
                    push_dec_i64(&mut message, *d as i64);
                    proof {
                        assert(message@ =~= "Date value out of range: "@ + dec_seq_signed(
                            first_bad_day(cells@),
                        ));
                    }
                    return Err(PolarsSerdeError::ConversionError { message });
                }
                out.push(Some(format_date(*d)));
            },
        }
        i = i + 1;
    }
    Ok(out)
}

/// Writes nanosecond cells as canonical timestamp text; RFC 3339 when the
/// column carries a zone.  Never fails: every 64-bit count has a text.
fn nanos_to_texts(cells: &Vec<Option<i64>>, utc: bool) -> (out: Vec<Option<String>>)
    ensures
        texts_of_nanos(cells@, out@, utc),
{
    let mut out: Vec<Option<String>> = Vec::new();
    let n = cells.len();
    let mut i: usize = 0;
    while i < n
        invariant
            i <= n == cells@.len(),
            out@.len() == i,
            forall|k: int|
                0 <= k < i ==> match #[trigger] cells@[k] {
                    None => out@[k] is None,
                    Some(nv) => out@[k] matches Some(t) && if utc {
                        rfc_canonical_utc(t@) && rfc_nanos(t@) == nv
                    } else {
                        naive_dt_canonical(t@) && naive_dt_nanos(t@) == nv
                    },
                },
        decreases n - i,
    {
        match &cells[i] {
            None => {
                out.push(None);
            },
            Some(nv) => {
                let t = if utc {
                    format_rfc3339_utc(*nv)
                } else {
                    format_naive_datetime(*nv)
                };
                out.push(Some(t));
            },
        }
        i = i + 1;
    }
    out
}

/// Writes millisecond cells as canonical timestamp text.  Fails on the
/// first cell whose day is out of range, naming its value.
fn ms_to_texts(cells: &Vec<Option<i64>>) -> (r: Result<Vec<Option<String>>, PolarsSerdeError>)
    ensures
        match r {
            Ok(out) => ms_cells_ok(cells@) && texts_of_ms(cells@, out@),
            Err(e) => !ms_cells_ok(cells@) && (e matches PolarsSerdeError::ConversionError {
                message,
            } && message@ == "Date64 value out of range: "@ + dec_seq_signed(first_bad_ms(cells@))),
        },
{
    let mut out: Vec<Option<String>> = Vec::new();
    let n = cells.len();
    let mut i: usize = 0;
    while i < n
        invariant
            i <= n == cells@.len(),
            out@.len() == i,
            forall|k: int| 0 <= k < i ==> ms_cell_ok(#[trigger] cells@[k]),
            forall|k: int|
                0 <= k < i ==> match #[trigger] cells@[k] {
                    None => out@[k] is None,
                    Some(m) => out@[k] matches Some(t) && naive_dt_canonical(t@) && naive_dt_nanos(
                        t@,
                    ) == m * 1000000,
                },
        decreases n - i,
    {
        match &cells[i] {
            None => {
                out.push(None);
            },
            Some(m) => {
                match ms_to_text(*m) {
                    Some(t) => {
                        out.push(Some(t));
                    },
                    None => {
                        proof {
                            lemma_first_bad_ms(cells@, i as int);
                        }
                        let mut message = String::new();
                        message.append("Date64 value out of range: ");
                        push_dec_i64(&mut message, *m);
                        proof {
                            assert(message@ =~= "Date64 value out of range: "@ + dec_seq_signed(
                                first_bad_ms(cells@),
                            ));
                        }
                        return Err(PolarsSerdeError::ConversionError { message });
                    },
                }
            },
        }
        i = i + 1;
    }
    Ok(out)
}

/// Un-reconciles one column.
fn unreconcile_column(col: Column) -> (r: Result<Column, PolarsSerdeError>)
    ensures
        match r {
            Ok(out) => column_reverse_ok(col) && column_reverse_rel(col, out) && !(out.data
                is Date32) && !(out.data is Date64) && !(out.data is TimestampNanos),
            Err(e) => !column_reverse_ok(col) && (e matches PolarsSerdeError::ConversionError {
                message,
            } && message@ == column_reverse_err(col)),
        },
{
    let Column { name, nullable, data } = col;
    match data {
        ColumnData::Date32(v) => match dates_to_texts(&v) {
            Ok(out) => Ok(Column { name, nullable, data: ColumnData::Utf8(out) }),
            Err(e) => Err(e),
        },
        ColumnData::TimestampNanos(v, z) => {
            let texts = nanos_to_texts(&v, z.is_some());
            Ok(Column { name, nullable, data: ColumnData::Utf8(texts) })
        },
        ColumnData::Date64(v) => match ms_to_texts(&v) {
            Ok(out) => Ok(Column { name, nullable, data: ColumnData::Utf8(out) }),
            Err(e) => Err(e),
        },
        other => Ok(Column { name, nullable, data: other }),
    }
}

/// The whole reverse pass, §4.4 of the design: every native temporal
/// column becomes the text the codec's deserialization path parses; the
/// result holds no native temporal column.  Fails on the first column with
/// a value outside the representable calendar, naming the value.
pub fn unreconcile_batch(batch: Batch) -> (r: Result<Batch, PolarsSerdeError>)
    ensures
        match r {
            Ok(out) => {
                &&& out.columns@.len() == batch.columns@.len()
                &&& forall|i: int|
                    0 <= i < batch.columns@.len() ==> column_reverse_ok(
                        #[trigger] batch.columns@[i],
                    )
                &&& forall|i: int|
                    0 <= i < batch.columns@.len() ==> column_reverse_rel(
                        #[trigger] batch.columns@[i],
                        out.columns@[i],
                    )
                &&& forall|i: int|
                    0 <= i < out.columns@.len() ==> !((#[trigger] out.columns@[i]).data is Date32)
                        && !(out.columns@[i].data is Date64) && !(out.columns@[i].data
                        is TimestampNanos)
                &&& (batch.wf() ==> out.wf() && out.spec_height() == batch.spec_height())
            },
            Err(e) => exists|i: int|
                0 <= i < batch.columns@.len() && !column_reverse_ok(#[trigger] batch.columns@[i])
                    && (forall|k: int|
                    0 <= k < i ==> column_reverse_ok(#[trigger] batch.columns@[k])) && (e matches
                    PolarsSerdeError::ConversionError { message } && message@ == column_reverse_err(
                    batch.columns@[i],
                )),
        },
{
    let ghost orig = batch.columns@;
    let mut cols = batch.columns;
    let mut out: Vec<Column> = Vec::new();
    while cols.len() > 0
        invariant
            batch.columns@ == orig,
            out@.len() + cols@.len() == orig.len(),
            cols@ =~= orig.subrange(out@.len() as int, orig.len() as int),
            forall|k: int| 0 <= k < out@.len() ==> column_reverse_ok(#[trigger] orig[k]),
            forall|k: int|
                0 <= k < out@.len() ==> column_reverse_rel(#[trigger] orig[k], out@[k]),
            forall|k: int|
                0 <= k < out@.len() ==> !((#[trigger] out@[k]).data is Date32) && !(out@[k].data
                    is Date64) && !(out@[k].data is TimestampNanos),
        decreases cols.len(),
    {
        let ghost i = out@.len() as int;
        let col = cols.remove(0);
        proof {
            assert(col == orig[i]);
            assert(cols@ =~= orig.subrange(i + 1, orig.len() as int));
        }
        match unreconcile_column(col) {
            Ok(c2) => {
                out.push(c2);
            },
            Err(e) => {
                proof {
                    assert(0 <= i < batch.columns@.len() && !column_reverse_ok(
                        batch.columns@[i],
                    ));
                    assert(forall|k: int|
                        0 <= k < i ==> column_reverse_ok(#[trigger] batch.columns@[k]));
                }
                return Err(e);
            },
        }
    }
    let result = Batch { columns: out };
    proof {
        if batch.wf() {
            assert forall|i: int|
                0 <= i < result.columns@.len() implies (#[trigger] result.columns@[i]).data.spec_len()
                == result.spec_height() by {
                assert(column_reverse_rel(orig[i], result.columns@[i]));
                if result.columns@.len() > 0 {
                    assert(column_reverse_rel(orig[0], result.columns@[0]));
                }
            }
        }
    }
    Ok(result)
}

} // verus!
