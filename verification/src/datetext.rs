//! The textual calendar-date form "YYYY-MM-DD": its grammar, its exact
//! relation to day counts, and verified parsing and formatting.

use vstd::prelude::*;
use crate::calendar::{
    civil_from_days, day_count_in_range, days_from_civil, days_from_civil_exec, days_in_month_exec,
    lemma_days_from_civil_injective, valid_ymd,
};
use crate::digits::{
    digit_char, digit_val, digits_of, is_digit_char, lemma_digits_of_value, lemma_num_at_bounds,
    lemma_num_at_congruence, lemma_pow10_values, num_at, push_digits, read_num, seq_digits,
};

verus! {

/// Ten characters, four digit positions, two separators.
pub open spec fn date_shape(s: Seq<char>) -> bool {
    &&& s.len() == 10
    &&& seq_digits(s, 0, 4)
    &&& s[4] == '-'
    &&& seq_digits(s, 5, 2)
    &&& s[7] == '-'
    &&& seq_digits(s, 8, 2)
}

pub open spec fn text_year(s: Seq<char>) -> int {
    num_at(s, 0, 4)
}

pub open spec fn text_month(s: Seq<char>) -> int {
    num_at(s, 5, 2)
}

pub open spec fn text_day(s: Seq<char>) -> int {
    num_at(s, 8, 2)
}

/// A well-formed calendar-date text: correct shape and a real date.
pub open spec fn is_date_text(s: Seq<char>) -> bool {
    &&& date_shape(s)
    &&& valid_ymd(text_year(s), text_month(s), text_day(s))
}

/// The day count a calendar-date text denotes.
pub open spec fn date_text_days(s: Seq<char>) -> int {
    days_from_civil(text_year(s), text_month(s), text_day(s))
}

/// Equal fixed-width numbers are written with equal digit characters.
pub proof fn lemma_num_at_injective(s1: Seq<char>, s2: Seq<char>, i1: int, i2: int, n: int)
    requires
        seq_digits(s1, i1, n),
        seq_digits(s2, i2, n),
        num_at(s1, i1, n) == num_at(s2, i2, n),
    ensures
        forall|k: int| 0 <= k < n ==> #[trigger] s1[i1 + k] == s2[i2 + k],
    decreases n,
{
    if n > 0 {
        let d1 = digit_val(s1[i1 + n - 1]);
        let d2 = digit_val(s2[i2 + n - 1]);
        assert(is_digit_char(s1[i1 + n - 1]));
        assert(is_digit_char(s2[i2 + n - 1]));
        assert(num_at(s1, i1, n - 1) * 10 + d1 == num_at(s2, i2, n - 1) * 10 + d2);
        assert(num_at(s1, i1, n - 1) == num_at(s2, i2, n - 1) && d1 == d2);
        assert(s1[i1 + n - 1] == s2[i2 + n - 1]);
        lemma_num_at_injective(s1, s2, i1, i2, n - 1);
        assert forall|k: int| 0 <= k < n implies #[trigger] s1[i1 + k] == s2[i2 + k] by {
            if k < n - 1 {
                assert(s1[i1 + k] == s2[i2 + k]);
            }
        }
    }
}

/// A day count has at most one calendar-date text.
pub proof fn lemma_date_text_unique(s1: Seq<char>, s2: Seq<char>)
    requires
        is_date_text(s1),
        is_date_text(s2),
        date_text_days(s1) == date_text_days(s2),
    ensures
        s1 == s2,
{
    lemma_days_from_civil_injective(
        text_year(s1),
        text_month(s1),
        text_day(s1),
        text_year(s2),
        text_month(s2),
        text_day(s2),
    );
    lemma_num_at_injective(s1, s2, 0, 0, 4);
    lemma_num_at_injective(s1, s2, 5, 5, 2);
    lemma_num_at_injective(s1, s2, 8, 8, 2);
    assert forall|k: int| 0 <= k < 10 implies s1[k] == s2[k] by {
        if k < 4 {
            assert(s1[0 + k] == s2[0 + k]);
        } else if k == 4 || k == 7 {
        } else if k < 7 {
            assert(s1[5 + (k - 5)] == s2[5 + (k - 5)]);
        } else {
            assert(s1[8 + (k - 8)] == s2[8 + (k - 8)]);
        }
    }
    assert(s1 =~= s2);
}

/// Parses "YYYY-MM-DD" into a day count.  Returns `None` exactly on text
/// that is not a well-formed calendar date.
pub fn parse_date(s: &str) -> (r: Option<i32>)
    ensures
        match r {
            Some(d) => is_date_text(s@) && d == date_text_days(s@) && day_count_in_range(d as int),
            None => !is_date_text(s@),
        },
{
    let n = s.unicode_len();
    if n != 10 {
        return None;
    }
    if s.get_char(4) != '-' || s.get_char(7) != '-' {
        return None;
    }
    let y = match read_num(s, 0, 4) {
        Some(v) => v,
        None => {
            return None;
        },
    };
    let m = match read_num(s, 5, 2) {
        Some(v) => v,
        None => {
            return None;
        },
    };
    let d = match read_num(s, 8, 2) {
        Some(v) => v,
        None => {
            return None;
        },
    };
    proof {
        lemma_num_at_bounds(s@, 0, 4);
        lemma_num_at_bounds(s@, 5, 2);
        lemma_num_at_bounds(s@, 8, 2);
        lemma_pow10_values();
    }
    if m < 1 || m > 12 || d < 1 {
        return None;
    }
    let dim = days_in_month_exec(y, m as u8);
    if d > dim as u32 {
        return None;
    }
    Some(days_from_civil_exec(y, m as u8, d as u8))
}

/// Formats a day count as the unique "YYYY-MM-DD" text that denotes it.
pub fn format_date(days: i32) -> (r: String)
    requires
        day_count_in_range(days as int),
    ensures
        is_date_text(r@),
        date_text_days(r@) == days,
{
    let (y, m, d) = civil_from_days(days);
    let mut s = String::new();
    push_digits(&mut s, y, 4);
    proof {
        reveal_strlit("-");
    }
    s.append("-");
    push_digits(&mut s, m as u32, 2);
    s.append("-");
    push_digits(&mut s, d as u32, 2);
    proof {
        lemma_pow10_values();
        let a = digits_of(y as int, 4);
        let b = digits_of(m as int, 2);
        let c = digits_of(d as int, 2);
        lemma_digits_of_value(y as int, 4);
        lemma_digits_of_value(m as int, 2);
        lemma_digits_of_value(d as int, 2);
        assert(s@ =~= a + seq!['-'] + b + seq!['-'] + c);
        assert(s@.len() == 10);
        assert forall|k: int| 0 <= k < 4 implies s@[0 + k] == a[k] by {}
        assert forall|k: int| 0 <= k < 2 implies s@[5 + k] == b[k] by {}
        assert forall|k: int| 0 <= k < 2 implies s@[8 + k] == c[k] by {}
        assert(seq_digits(s@, 0, 4)) by {
            assert(forall|k: int| 0 <= k < 4 ==> #[trigger] s@[k] == a[k]);
        }
        assert(seq_digits(s@, 5, 2)) by {
            assert(forall|k: int| 5 <= k < 7 ==> #[trigger] s@[k] == b[k - 5]);
        }
        assert(seq_digits(s@, 8, 2)) by {
            assert(forall|k: int| 8 <= k < 10 ==> #[trigger] s@[k] == c[k - 8]);
        }
        lemma_num_at_congruence(s@, a, 0, 0, 4);
        lemma_num_at_congruence(s@, b, 5, 0, 2);
        lemma_num_at_congruence(s@, c, 8, 0, 2);
        assert(text_year(s@) == y as int);
        assert(text_month(s@) == m as int);
        assert(text_day(s@) == d as int);
    }
    s
}

} // verus!
