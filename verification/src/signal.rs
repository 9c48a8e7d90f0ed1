//! Temporal signal detection: which record fields carry time semantics,
//! judged purely from type names and wrapper names — never from values.

use vstd::prelude::*;

verus! {

/// The temporal kind recorded for one record field.
#[derive(Debug)]
pub enum TemporalSignal {
    /// A day-precision calendar date.
    NativeDate,
    /// A timezone-naive instant.
    NativeNaiveDatetime,
    /// A UTC instant.
    NativeUtcDatetime,
    /// A single-value wrapper whose name matched no known marker; recorded
    /// for observability, drives no rewrite.
    UnrecognizedWrapper(String),
}

/// `p` is a prefix of `s`.
pub open spec fn has_prefix(s: Seq<char>, p: Seq<char>) -> bool {
    p.len() <= s.len() && s.subrange(0, p.len() as int) == p
}

/// Character-exact string equality.
pub fn str_eq(a: &str, b: &str) -> (r: bool)
    ensures
        r == (a@ == b@),
{
    let la = a.unicode_len();
    let lb = b.unicode_len();
    if la != lb {
        proof {
            assert(a@ != b@);
        }
        return false;
    }
    let mut i: usize = 0;
    while i < la
        invariant
            i <= la,
            la == a@.len(),
            la == b@.len(),
            la <= usize::MAX,
            forall|k: int| 0 <= k < i ==> a@[k] == b@[k],
        decreases la - i,
    {
        if a.get_char(i) != b.get_char(i) {
            proof {
                assert(a@[i as int] != b@[i as int]);
            }
            return false;
        }
        i = i + 1;
    }
    proof {
        assert(a@ =~= b@);
    }
    true
}

/// Character-exact prefix test.
pub fn str_has_prefix(s: &str, p: &str) -> (r: bool)
    ensures
        r == has_prefix(s@, p@),
{
    let ls = s.unicode_len();
    let lp = p.unicode_len();
    if lp > ls {
        return false;
    }
    let mut i: usize = 0;
    while i < lp
        invariant
            i <= lp <= ls,
            ls == s@.len(),
            lp == p@.len(),
            ls <= usize::MAX,
            forall|k: int| 0 <= k < i ==> s@[k] == p@[k],
        decreases lp - i,
    {
        if s.get_char(i) != p.get_char(i) {
            proof {
                assert(s@[i as int] != p@[i as int]);
                assert(!has_prefix(s@, p@)) by {
                    if has_prefix(s@, p@) {
                        assert(s@.subrange(0, p@.len() as int)[i as int] == p@[i as int]);
                    }
                }
            }
            return false;
        }
        i = i + 1;
    }
    proof {
        assert(s@.subrange(0, p@.len() as int) =~= p@);
    }
    true
}

/// The signal a field's declared type name yields: the three foreign
/// temporal types, bare or under one level of optionality, and nothing
/// else.  A plain scalar, text or bool type yields no signal, whatever the
/// field's value looks like.
pub open spec fn spec_classify_type_name(t: Seq<char>) -> Option<TemporalSignal> {
    if t == "chrono::naive::date::NaiveDate"@ {
        Some(TemporalSignal::NativeDate)
    } else if t == "chrono::naive::datetime::NaiveDateTime"@ {
        Some(TemporalSignal::NativeNaiveDatetime)
    } else if has_prefix(t, "chrono::datetime::DateTime<chrono::offset::utc::Utc>"@) {
        Some(TemporalSignal::NativeUtcDatetime)
    } else if has_prefix(t, "core::option::Option<chrono::naive::date::NaiveDate>"@) {
        Some(TemporalSignal::NativeDate)
    } else if has_prefix(t, "core::option::Option<chrono::naive::datetime::NaiveDateTime>"@) {
        Some(TemporalSignal::NativeNaiveDatetime)
    } else if has_prefix(
        t,
        "core::option::Option<chrono::datetime::DateTime<chrono::offset::utc::Utc>>"@,
    ) {
        Some(TemporalSignal::NativeUtcDatetime)
    } else {
        None
    }
}

/// Classifies a field's declared type name.
pub fn classify_field_type_name(t: &str) -> (r: Option<TemporalSignal>)
    ensures
        r == spec_classify_type_name(t@),
{
    if str_eq(t, "chrono::naive::date::NaiveDate") {
        Some(TemporalSignal::NativeDate)
    } else if str_eq(t, "chrono::naive::datetime::NaiveDateTime") {
        Some(TemporalSignal::NativeNaiveDatetime)
    } else if str_has_prefix(t, "chrono::datetime::DateTime<chrono::offset::utc::Utc>") {
        Some(TemporalSignal::NativeUtcDatetime)
    } else if str_has_prefix(t, "core::option::Option<chrono::naive::date::NaiveDate>") {
        Some(TemporalSignal::NativeDate)
    } else if str_has_prefix(t, "core::option::Option<chrono::naive::datetime::NaiveDateTime>") {
        Some(TemporalSignal::NativeNaiveDatetime)
    } else if str_has_prefix(
        t,
        "core::option::Option<chrono::datetime::DateTime<chrono::offset::utc::Utc>>",
    ) {
        Some(TemporalSignal::NativeUtcDatetime)
    } else {
        None
    }
}

/// The signal a single-value wrapper's declared name yields: the three
/// recognized markers upgrade to native kinds, anything else is recorded
/// as an unrecognized wrapper under its own name.
pub fn classify_wrapper_name(w: &str) -> (r: TemporalSignal)
    ensures
        w@ == "NaiveDate"@ ==> r is NativeDate,
        w@ == "NaiveDateTime"@ ==> r is NativeNaiveDatetime,
        w@ == "DateTimeUtc"@ ==> r is NativeUtcDatetime,
        w@ != "NaiveDate"@ && w@ != "NaiveDateTime"@ && w@ != "DateTimeUtc"@ ==> (r matches
            TemporalSignal::UnrecognizedWrapper(n) && n@ == w@),
{
    proof {
        reveal_strlit("NaiveDate");
        reveal_strlit("NaiveDateTime");
        reveal_strlit("DateTimeUtc");
        assert("NaiveDate"@.len() == 9);
        assert("NaiveDateTime"@.len() == 13);
        assert("DateTimeUtc"@.len() == 11);
        assert("NaiveDate"@ != "DateTimeUtc"@);
        assert("NaiveDateTime"@ != "DateTimeUtc"@);
        assert("NaiveDate"@ != "NaiveDateTime"@);
    }
    if str_eq(w, "NaiveDate") {
        TemporalSignal::NativeDate
    } else if str_eq(w, "NaiveDateTime") {
        TemporalSignal::NativeNaiveDatetime
    } else if str_eq(w, "DateTimeUtc") {
        TemporalSignal::NativeUtcDatetime
    } else {
        TemporalSignal::UnrecognizedWrapper(String::from_str(w))
    }
}

/// Looks a name up in an association sequence; the latest entry wins.
pub open spec fn spec_assoc_get(entries: Seq<(String, TemporalSignal)>, name: Seq<char>) -> Option<
    TemporalSignal,
>
    decreases entries.len(),
{
    if entries.len() == 0 {
        None
    } else if entries.last().0@ == name {
        Some(entries.last().1)
    } else {
        spec_assoc_get(entries.drop_last(), name)
    }
}

/// The per-field temporal signals of one record shape.  Setting a name
/// again overrides its earlier signal.
#[derive(Debug)]
pub struct SignalMap {
    pub entries: Vec<(String, TemporalSignal)>,
}

impl SignalMap {
    pub open spec fn spec_get(&self, name: Seq<char>) -> Option<TemporalSignal> {
        spec_assoc_get(self.entries@, name)
    }

    /// A fresh map holds no signal for any name.
    pub fn new() -> (r: Self)
        ensures
            forall|n: Seq<char>| #[trigger] r.spec_get(n) is None,
            r.entries@.len() == 0,
    {
        SignalMap { entries: Vec::new() }
    }

    /// Records `sig` for `name`, overriding any earlier signal.
    pub fn set(&mut self, name: String, sig: TemporalSignal)
        ensures
            final(self).spec_get(name@) == Some(sig),
            forall|n: Seq<char>|
                n != name@ ==> #[trigger] final(self).spec_get(n) == old(self).spec_get(n),
            final(self).entries@.len() == old(self).entries@.len() + 1,
    {
        let ghost old_entries = self.entries@;
        self.entries.push((name, sig));
        proof {
            assert(self.entries@.drop_last() =~= old_entries);
        }
    }

    /// The recorded signal for `name`, if any.
    pub fn get<'a>(&'a self, name: &str) -> (r: Option<&'a TemporalSignal>)
        ensures
            match r {
                Some(sig) => self.spec_get(name@) == Some(*sig),
                None => self.spec_get(name@) is None,
            },
    {
        let mut i: usize = self.entries.len();
        proof {
            assert(self.entries@.subrange(0, self.entries@.len() as int) =~= self.entries@);
        }
        while i > 0
            invariant
                i <= self.entries@.len(),
                spec_assoc_get(self.entries@, name@) == spec_assoc_get(
                    self.entries@.subrange(0, i as int),
                    name@,
                ),
            decreases i,
        {
            i = i - 1;
            let entry = &self.entries[i];
            if str_eq(entry.0.as_str(), name) {
                proof {
                    let pre = self.entries@.subrange(0, i as int + 1);
                    assert(pre.last() == self.entries@[i as int]);
                }
                return Some(&entry.1);
            }
            proof {
                let pre = self.entries@.subrange(0, i as int + 1);
                assert(pre.last() == self.entries@[i as int]);
                assert(pre.drop_last() =~= self.entries@.subrange(0, i as int));
            }
        }
        proof {
            assert(self.entries@.subrange(0, 0) =~= Seq::<(String, TemporalSignal)>::empty());
        }
        None
    }

    /// Whether any signal has been recorded.
    pub fn is_empty(&self) -> (r: bool)
        ensures
            r == (self.entries@.len() == 0),
    {
        self.entries.len() == 0
    }
}

} // verus!
