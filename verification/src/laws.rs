//! The round-trip laws of the two reconcilers: the reverse pass writes
//! exactly the texts the forward pass parses, and the forward pass restores
//! exactly the native values the reverse pass wrote.  Together they make
//! the two passes mutual inverses on the batches this library produces.

use vstd::prelude::*;
use crate::batch::{Batch, Column, ColumnData};
use crate::datetext::lemma_date_text_unique;
use crate::reconcile::{
    cells_ok, column_forward_ok, column_forward_rel, dates_of_texts, nanos_of_texts,
};
use crate::signal::{SignalMap, TemporalSignal};
use crate::timetext::{
    lemma_naive_dt_canonical_unique, lemma_rfc_canonical_unique, naive_dt_canonical,
    rfc_canonical_utc, rfc_nanos,
};
use crate::unreconcile::{
    column_reverse_ok, column_reverse_rel, texts_of_dates, texts_of_nanos,
};

verus! {

/// Writing parsed day counts back yields the original date texts,
/// character for character: date text is unique per day.
pub proof fn lemma_date_texts_round_trip(
    texts: Seq<Option<String>>,
    days: Seq<Option<i32>>,
    texts2: Seq<Option<String>>,
)
    requires
        dates_of_texts(texts, days),
        texts_of_dates(days, texts2),
    ensures
        texts2.len() == texts.len(),
        forall|j: int|
            0 <= j < texts.len() ==> match #[trigger] texts[j] {
                None => texts2[j] is None,
                Some(s) => texts2[j] matches Some(s2) && s2@ == s@,
            },
{
    assert forall|j: int| 0 <= j < texts.len() implies match #[trigger] texts[j] {
        None => texts2[j] is None,
        Some(s) => texts2[j] matches Some(s2) && s2@ == s@,
    } by {
        match texts[j] {
            None => {
                assert(days[j] is None);
            },
            Some(s) => {
                let d = days[j]->Some_0;
                let s2 = texts2[j]->Some_0;
                lemma_date_text_unique(s@, s2@);
            },
        }
    }
}

/// Writing parsed nanosecond counts back yields the original timestamp
/// texts wherever they were canonical.
pub proof fn lemma_naive_dt_texts_round_trip(
    texts: Seq<Option<String>>,
    ns: Seq<Option<i64>>,
    texts2: Seq<Option<String>>,
)
    requires
        nanos_of_texts(texts, ns, false),
        texts_of_nanos(ns, texts2, false),
        forall|j: int|
            0 <= j < texts.len() ==> match #[trigger] texts[j] {
                None => true,
                Some(s) => naive_dt_canonical(s@),
            },
    ensures
        texts2.len() == texts.len(),
        forall|j: int|
            0 <= j < texts.len() ==> match #[trigger] texts[j] {
                None => texts2[j] is None,
                Some(s) => texts2[j] matches Some(s2) && s2@ == s@,
            },
{
    assert forall|j: int| 0 <= j < texts.len() implies match #[trigger] texts[j] {
        None => texts2[j] is None,
        Some(s) => texts2[j] matches Some(s2) && s2@ == s@,
    } by {
        match texts[j] {
            None => {
                assert(ns[j] is None);
            },
            Some(s) => {
                let s2 = texts2[j]->Some_0;
                lemma_naive_dt_canonical_unique(s@, s2@);
            },
        }
    }
}

/// Writing parsed UTC instants back preserves every denoted instant; the
/// text itself is restored wherever it was already in the canonical
/// offset form.
pub proof fn lemma_rfc_texts_round_trip(
    texts: Seq<Option<String>>,
    ns: Seq<Option<i64>>,
    texts2: Seq<Option<String>>,
)
    requires
        nanos_of_texts(texts, ns, true),
        texts_of_nanos(ns, texts2, true),
    ensures
        texts2.len() == texts.len(),
        forall|j: int|
            0 <= j < texts.len() ==> match #[trigger] texts[j] {
                None => texts2[j] is None,
                Some(s) => texts2[j] matches Some(s2) && rfc_canonical_utc(s2@) && rfc_nanos(s2@)
                    == rfc_nanos(s@),
            },
        forall|j: int|
            0 <= j < texts.len() ==> match #[trigger] texts[j] {
                None => true,
                Some(s) => rfc_canonical_utc(s@) ==> (texts2[j] matches Some(s2) && s2@ == s@),
            },
{
    assert forall|j: int| 0 <= j < texts.len() implies match #[trigger] texts[j] {
        None => true,
        Some(s) => rfc_canonical_utc(s@) ==> (texts2[j] matches Some(s2) && s2@ == s@),
    } by {
        match texts[j] {
            None => {
            },
            Some(s) => {
                if rfc_canonical_utc(s@) {
                    let s2 = texts2[j]->Some_0;
                    lemma_rfc_canonical_unique(s@, s2@);
                }
            },
        }
    }
}

/// Parsing written date texts restores the day counts exactly.
pub proof fn lemma_days_round_trip(
    days: Seq<Option<i32>>,
    texts: Seq<Option<String>>,
    days2: Seq<Option<i32>>,
)
    requires
        texts_of_dates(days, texts),
        dates_of_texts(texts, days2),
    ensures
        days2 == days,
{
    assert forall|j: int| 0 <= j < days.len() implies days2[j] == days[j] by {
        match days[j] {
            None => {
                assert(texts[j] is None);
            },
            Some(d) => {
                assert(texts[j] matches Some(t) && crate::datetext::date_text_days(t@) == d);
            },
        }
    }
    assert(days2 =~= days);
}

/// Parsing written timestamp texts restores the nanosecond counts exactly.
pub proof fn lemma_nanos_round_trip(
    ns: Seq<Option<i64>>,
    texts: Seq<Option<String>>,
    ns2: Seq<Option<i64>>,
    utc: bool,
)
    requires
        texts_of_nanos(ns, texts, utc),
        nanos_of_texts(texts, ns2, utc),
    ensures
        ns2 == ns,
{
    assert forall|j: int| 0 <= j < ns.len() implies ns2[j] == ns[j] by {
        match ns[j] {
            None => {
                assert(texts[j] is None);
            },
            Some(n) => {
            },
        }
    }
    assert(ns2 =~= ns);
}

/// Column contents are the same, compared by their mathematical views.
pub open spec fn data_equiv(a: ColumnData, b: ColumnData) -> bool {
    match (a, b) {
        (ColumnData::Utf8(x), ColumnData::Utf8(y)) => x.deep_view() == y.deep_view(),
        (ColumnData::LargeUtf8(x), ColumnData::LargeUtf8(y)) => x.deep_view() == y.deep_view(),
        (ColumnData::DictUtf8(x), ColumnData::DictUtf8(y)) => x.deep_view() == y.deep_view(),
        (ColumnData::Int32(x), ColumnData::Int32(y)) => x@ == y@,
        (ColumnData::Int64(x), ColumnData::Int64(y)) => x@ == y@,
        (ColumnData::Date32(x), ColumnData::Date32(y)) => x@ == y@,
        (ColumnData::Date64(x), ColumnData::Date64(y)) => x@ == y@,
        (ColumnData::TimestampNanos(x, zx), ColumnData::TimestampNanos(y, zy)) => x@ == y@ && match (
            zx,
            zy,
        ) {
            (None, None) => true,
            (Some(a1), Some(b1)) => a1@ == b1@,
            _ => false,
        },
        (ColumnData::Opaque(n), ColumnData::Opaque(m)) => n == m,
        _ => false,
    }
}

/// The signals under which a reconciled batch's columns read back into
/// themselves: native columns carry their own kind, nothing else is
/// signalled for rewriting.
pub open spec fn signals_match_native(b: Batch, signals: SignalMap) -> bool {
    forall|i: int|
        0 <= i < b.columns@.len() ==> {
            let c = #[trigger] b.columns@[i];
            match c.data {
                ColumnData::Date32(_) => signals.spec_get(c.name@) == Some(
                    TemporalSignal::NativeDate,
                ),
                ColumnData::TimestampNanos(_, z) => match z {
                    None => signals.spec_get(c.name@) == Some(TemporalSignal::NativeNaiveDatetime),
                    Some(zz) => zz@ == "UTC"@ && signals.spec_get(c.name@) == Some(
                        TemporalSignal::NativeUtcDatetime,
                    ),
                },
                ColumnData::Date64(_) => false,
                ColumnData::DictUtf8(_) => false,
                _ => match signals.spec_get(c.name@) {
                    None => true,
                    Some(TemporalSignal::UnrecognizedWrapper(_)) => true,
                    _ => false,
                },
            }
        }
}

/// The shape of a batch as the row codec encodes it: signalled fields are
/// text columns (canonical text for timezone-naive timestamps), and no
/// column is already a native temporal column.
pub open spec fn codec_batch_shape(b: Batch, signals: SignalMap) -> bool {
    forall|i: int|
        0 <= i < b.columns@.len() ==> {
            let c = #[trigger] b.columns@[i];
            match signals.spec_get(c.name@) {
                Some(TemporalSignal::NativeDate) => c.data is Utf8,
                Some(TemporalSignal::NativeNaiveDatetime) => c.data matches ColumnData::Utf8(v)
                    && (forall|j: int|
                    0 <= j < v@.len() ==> match #[trigger] v@[j] {
                        None => true,
                        Some(s) => naive_dt_canonical(s@),
                    }),
                Some(TemporalSignal::NativeUtcDatetime) => c.data is Utf8,
                _ => !(c.data is Date32) && !(c.data is Date64) && !(c.data is TimestampNanos),
            }
        }
}

/// Round-trip identity, the batch half: reconciling a batch the codec
/// encoded and un-reconciling the result hands the codec back text that
/// decodes to the same records — date and timezone-naive timestamp texts
/// come back character for character, UTC timestamp texts come back in
/// canonical offset form denoting the same instants, and every other
/// column is unchanged (dictionary-coded text becomes plain text with the
/// same values).
pub proof fn lemma_forward_then_reverse_texts(
    b: Batch,
    mid: Batch,
    b2: Batch,
    signals: SignalMap,
)
    requires
        codec_batch_shape(b, signals),
        mid.columns@.len() == b.columns@.len(),
        b2.columns@.len() == b.columns@.len(),
        forall|i: int|
            0 <= i < b.columns@.len() ==> column_forward_rel(
                #[trigger] b.columns@[i],
                signals.spec_get(b.columns@[i].name@),
                mid.columns@[i],
            ),
        forall|i: int|
            0 <= i < b.columns@.len() ==> column_reverse_rel(
                #[trigger] mid.columns@[i],
                b2.columns@[i],
            ),
    ensures
        forall|i: int|
            0 <= i < b.columns@.len() ==> {
                let c = #[trigger] b.columns@[i];
                let c2 = b2.columns@[i];
                c2.name@ == c.name@ && c2.nullable == c.nullable && match signals.spec_get(
                    c.name@,
                ) {
                    Some(TemporalSignal::NativeDate) => texts_restored(c.data, c2.data),
                    Some(TemporalSignal::NativeNaiveDatetime) => texts_restored(c.data, c2.data),
                    Some(TemporalSignal::NativeUtcDatetime) => utc_instants_restored(
                        c.data,
                        c2.data,
                    ),
                    _ => match c.data {
                        ColumnData::DictUtf8(v) => c2.data matches ColumnData::Utf8(out)
                            && out.deep_view() == v.deep_view(),
                        _ => c2.data == c.data,
                    },
                }
            },
{
    assert forall|i: int| 0 <= i < b.columns@.len() implies {
        let c = #[trigger] b.columns@[i];
        let c2 = b2.columns@[i];
        c2.name@ == c.name@ && c2.nullable == c.nullable && match signals.spec_get(c.name@) {
            Some(TemporalSignal::NativeDate) => texts_restored(c.data, c2.data),
            Some(TemporalSignal::NativeNaiveDatetime) => texts_restored(c.data, c2.data),
            Some(TemporalSignal::NativeUtcDatetime) => utc_instants_restored(c.data, c2.data),
            _ => match c.data {
                ColumnData::DictUtf8(v) => c2.data matches ColumnData::Utf8(out)
                    && out.deep_view() == v.deep_view(),
                _ => c2.data == c.data,
            },
        }
    } by {
        let c = b.columns@[i];
        let m = mid.columns@[i];
        let c2 = b2.columns@[i];
        assert(column_forward_rel(c, signals.spec_get(c.name@), m));
        assert(column_reverse_rel(m, c2));
        match signals.spec_get(c.name@) {
            Some(TemporalSignal::NativeDate) => {
                let v = c.data->Utf8_0;
                let days = m.data->Date32_0;
                let out = c2.data->Utf8_0;
                lemma_date_texts_round_trip(v@, days@, out@);
                assert(out.deep_view() =~= v.deep_view());
            },
            Some(TemporalSignal::NativeNaiveDatetime) => {
                let v = c.data->Utf8_0;
                let ns = m.data->TimestampNanos_0;
                let out = c2.data->Utf8_0;
                lemma_naive_dt_texts_round_trip(v@, ns@, out@);
                assert(out.deep_view() =~= v.deep_view());
            },
            Some(TemporalSignal::NativeUtcDatetime) => {
                let v = c.data->Utf8_0;
                let ns = m.data->TimestampNanos_0;
                let out = c2.data->Utf8_0;
                lemma_rfc_texts_round_trip(v@, ns@, out@);
            },
            _ => {
                match c.data {
                    ColumnData::DictUtf8(v) => {
                        let out_mid = m.data->Utf8_0;
                        let out = c2.data->Utf8_0;
                        assert(out.deep_view() =~= v.deep_view());
                    },
                    _ => {
                        assert(m.data == c.data);
                        assert(c2.data == m.data);
                    },
                }
            },
        }
    }
}

/// Text columns come back with the same cell texts, as plain text.
pub open spec fn texts_restored(pre: ColumnData, post: ColumnData) -> bool {
    pre matches ColumnData::Utf8(v) && post matches ColumnData::Utf8(out)
        && out.deep_view() == v.deep_view()
}

/// UTC timestamp text columns come back as canonical-offset text denoting
/// the same instants; already-canonical cells come back identical.
pub open spec fn utc_instants_restored(pre: ColumnData, post: ColumnData) -> bool {
    &&& pre matches ColumnData::Utf8(v) && post matches ColumnData::Utf8(out) && out@.len()
        == v@.len() && (forall|j: int|
        0 <= j < v@.len() ==> match #[trigger] v@[j] {
            None => out@[j] is None,
            Some(s) => out@[j] matches Some(s2) && rfc_canonical_utc(s2@) && rfc_nanos(s2@)
                == rfc_nanos(s@) && (rfc_canonical_utc(s@) ==> s2@ == s@),
        })
}

/// Idempotent double round-trip, the batch half: un-reconciling a
/// reconciled batch and reconciling the result under matching signals
/// restores every column exactly — same names, same declared shapes, same
/// values.  The two passes are true inverses, not just close.
pub proof fn lemma_reverse_then_forward_identity(
    b: Batch,
    mid: Batch,
    b2: Batch,
    signals: SignalMap,
)
    requires
        signals_match_native(b, signals),
        mid.columns@.len() == b.columns@.len(),
        b2.columns@.len() == b.columns@.len(),
        forall|i: int|
            0 <= i < b.columns@.len() ==> column_reverse_rel(
                #[trigger] b.columns@[i],
                mid.columns@[i],
            ),
        forall|i: int|
            0 <= i < b.columns@.len() ==> column_forward_rel(
                #[trigger] mid.columns@[i],
                signals.spec_get(mid.columns@[i].name@),
                b2.columns@[i],
            ),
    ensures
        forall|i: int|
            0 <= i < b.columns@.len() ==> {
                let c = #[trigger] b.columns@[i];
                let c2 = b2.columns@[i];
                c2.name@ == c.name@ && c2.nullable == c.nullable && data_equiv(c2.data, c.data)
            },
{
    assert forall|i: int| 0 <= i < b.columns@.len() implies {
        let c = #[trigger] b.columns@[i];
        let c2 = b2.columns@[i];
        c2.name@ == c.name@ && c2.nullable == c.nullable && data_equiv(c2.data, c.data)
    } by {
        let c = b.columns@[i];
        let m = mid.columns@[i];
        let c2 = b2.columns@[i];
        assert(column_reverse_rel(c, m));
        assert(column_forward_rel(m, signals.spec_get(m.name@), c2));
        assert(m.name@ == c.name@);
        match c.data {
            ColumnData::Date32(v) => {
                let texts = m.data->Utf8_0;
                let out = c2.data->Date32_0;
                assert(out@ =~= v@);
            },
            ColumnData::TimestampNanos(v, z) => {
                let texts = m.data->Utf8_0;
                let out = c2.data->TimestampNanos_0;
                assert(out@ =~= v@);
            },
            ColumnData::Utf8(v) => {
                assert(m.data == c.data);
                assert(c2.data == m.data);
                assert(v.deep_view() =~= v.deep_view());
            },
            _ => {
                assert(m.data == c.data);
                assert(c2.data == m.data);
            },
        }
    }
}

} // verus!
