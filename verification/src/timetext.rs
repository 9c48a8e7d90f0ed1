//! The textual timestamp forms "YYYY-MM-DDTHH:MM:SS[.frac]" (timezone-naive)
//! and RFC 3339 with an explicit offset: their grammars, their exact relation
//! to nanosecond counts since the Unix epoch, and verified parsing and
//! formatting.

use vstd::prelude::*;
use crate::calendar::{
    day_count_in_range, days_before_year, days_before_year_exec, days_from_civil,
    lemma_days_before_month_bounds, lemma_days_before_year_bounds,
};
use crate::datetext::{date_text_days, format_date, is_date_text, parse_date};
use crate::digits::{
    digit_val, digits_of, is_digit_char, lemma_digits_of_value, lemma_num_at_bounds, lemma_num_at_congruence,
    lemma_pow10_adds, lemma_pow10_mono, lemma_pow10_pos, lemma_pow10_values, num_at, pow10,
    pow10_exec, push_digits, read_num, seq_digits,
};

verus! {

pub const NANOS_PER_SEC: i64 = 1_000_000_000;

pub const NANOS_PER_DAY: i64 = 86_400_000_000_000;

pub const SECS_PER_DAY: i64 = 86_400;

/// The common head "YYYY-MM-DDTHH:MM:SS" of both timestamp forms:
/// a valid date, a 'T', and a valid 24-hour wall-clock time.
pub open spec fn dt_head_ok(s: Seq<char>) -> bool {
    &&& s.len() >= 19
    &&& is_date_text(s.subrange(0, 10))
    &&& s[10] == 'T'
    &&& seq_digits(s, 11, 2)
    &&& s[13] == ':'
    &&& seq_digits(s, 14, 2)
    &&& s[16] == ':'
    &&& seq_digits(s, 17, 2)
    &&& num_at(s, 11, 2) <= 23
    &&& num_at(s, 14, 2) <= 59
    &&& num_at(s, 17, 2) <= 59
}

/// Nanoseconds denoted by the head, ignoring any fraction.
pub open spec fn dt_head_nanos(s: Seq<char>) -> int {
    date_text_days(s.subrange(0, 10)) * NANOS_PER_DAY + (num_at(s, 11, 2) * 3600 + num_at(
        s,
        14,
        2,
    ) * 60 + num_at(s, 17, 2)) * NANOS_PER_SEC
}

/// Value in nanoseconds of `nd` fraction digits starting at position `i`.
pub open spec fn frac_value(s: Seq<char>, i: int, nd: int) -> int {
    num_at(s, i, nd) * pow10(9 - nd)
}

/// A timezone-naive timestamp text: head, then an optional dot and one to
/// nine fraction digits running to the end of the text.
pub open spec fn is_naive_dt_text(s: Seq<char>) -> bool {
    &&& dt_head_ok(s)
    &&& (s.len() == 19 || (21 <= s.len() <= 29 && s[19] == '.' && seq_digits(
        s,
        20,
        s.len() - 20,
    )))
}

pub open spec fn naive_dt_frac(s: Seq<char>) -> int {
    if s.len() == 19 {
        0
    } else {
        frac_value(s, 20, s.len() - 20)
    }
}

/// Nanoseconds since the epoch denoted by a timezone-naive timestamp text.
pub open spec fn naive_dt_nanos(s: Seq<char>) -> int {
    dt_head_nanos(s) + naive_dt_frac(s)
}

/// The denoted instant fits the native 64-bit nanosecond encoding.
pub open spec fn naive_dt_representable(s: Seq<char>) -> bool {
    i64::MIN <= naive_dt_nanos(s) <= i64::MAX
}

/// The fraction is written the way the formatter writes it: absent when
/// zero, else three, six or nine digits according to its trailing zeros.
pub open spec fn naive_dt_canonical(s: Seq<char>) -> bool {
    &&& is_naive_dt_text(s)
    &&& {
        let f = naive_dt_frac(s);
        if f == 0 {
            s.len() == 19
        } else if f % 1000000 == 0 {
            s.len() == 23
        } else if f % 1000 == 0 {
            s.len() == 26
        } else {
            s.len() == 29
        }
    }
}

/// The decomposition of a timestamp text's value into day count, seconds of
/// day and subsecond nanoseconds is the Euclidean one, so it is unique.
proof fn lemma_dt_decompose(s: Seq<char>)
    requires
        is_naive_dt_text(s),
    ensures
        date_text_days(s.subrange(0, 10)) == naive_dt_nanos(s) / (NANOS_PER_DAY as int),
        (num_at(s, 11, 2) * 3600 + num_at(s, 14, 2) * 60 + num_at(s, 17, 2)) * (
        NANOS_PER_SEC as int) + naive_dt_frac(s) == naive_dt_nanos(s) % (NANOS_PER_DAY as int),
        num_at(s, 11, 2) == (naive_dt_nanos(s) % (NANOS_PER_DAY as int)) / (3600
            * NANOS_PER_SEC as int),
        num_at(s, 14, 2) == ((naive_dt_nanos(s) % (NANOS_PER_DAY as int)) % (3600
            * NANOS_PER_SEC as int)) / (60 * NANOS_PER_SEC as int),
        num_at(s, 17, 2) == (((naive_dt_nanos(s) % (NANOS_PER_DAY as int)) % (3600
            * NANOS_PER_SEC as int)) % (60 * NANOS_PER_SEC as int)) / (NANOS_PER_SEC as int),
        naive_dt_frac(s) == naive_dt_nanos(s) % (NANOS_PER_SEC as int),
        0 <= naive_dt_frac(s) < NANOS_PER_SEC,
{
    let days = date_text_days(s.subrange(0, 10));
    let h = num_at(s, 11, 2);
    let mi = num_at(s, 14, 2);
    let ss = num_at(s, 17, 2);
    let f = naive_dt_frac(s);
    let n = naive_dt_nanos(s);
    assert(0 <= f < NANOS_PER_SEC) by {
        if s.len() != 19 {
            let nd = s.len() - 20;
            lemma_num_at_bounds(s, 20, nd);
            lemma_pow10_pos(9 - nd);
            lemma_pow10_adds(nd, 9 - nd);
            lemma_pow10_values();
            vstd::arithmetic::mul::lemma_mul_inequality(
                num_at(s, 20, nd),
                pow10(nd) - 1,
                pow10(9 - nd),
            );
            vstd::arithmetic::mul::lemma_mul_is_commutative(pow10(nd) - 1, pow10(9 - nd));
            vstd::arithmetic::mul::lemma_mul_is_distributive_sub(pow10(9 - nd), pow10(nd), 1);
            vstd::arithmetic::mul::lemma_mul_nonnegative(num_at(s, 20, nd), pow10(9 - nd));
        }
    }
    assert(0 <= h <= 23 && 0 <= mi <= 59 && 0 <= ss <= 59) by {
        lemma_num_at_bounds(s, 11, 2);
        lemma_num_at_bounds(s, 14, 2);
        lemma_num_at_bounds(s, 17, 2);
    }
    let tod = (h * 3600 + mi * 60 + ss) * (NANOS_PER_SEC as int) + f;
    assert(0 <= tod < NANOS_PER_DAY);
    vstd::arithmetic::div_mod::lemma_fundamental_div_mod_converse(
        n,
        NANOS_PER_DAY as int,
        days,
        tod,
    );
    let hn = 3600 * NANOS_PER_SEC as int;
    vstd::arithmetic::div_mod::lemma_fundamental_div_mod_converse(
        tod,
        hn,
        h,
        (mi * 60 + ss) * (NANOS_PER_SEC as int) + f,
    );
    let mn = 60 * NANOS_PER_SEC as int;
    vstd::arithmetic::div_mod::lemma_fundamental_div_mod_converse(
        (mi * 60 + ss) * (NANOS_PER_SEC as int) + f,
        mn,
        mi,
        ss * (NANOS_PER_SEC as int) + f,
    );
    vstd::arithmetic::div_mod::lemma_fundamental_div_mod_converse(
        ss * (NANOS_PER_SEC as int) + f,
        NANOS_PER_SEC as int,
        ss,
        f,
    );
    assert(f == n % (NANOS_PER_SEC as int)) by {
        vstd::arithmetic::div_mod::lemma_fundamental_div_mod_converse(
            n,
            NANOS_PER_SEC as int,
            days * (SECS_PER_DAY as int) + h * 3600 + mi * 60 + ss,
            f,
        );
    }
}

/// A nanosecond count has at most one canonical timezone-naive text.
pub proof fn lemma_naive_dt_canonical_unique(s1: Seq<char>, s2: Seq<char>)
    requires
        naive_dt_canonical(s1),
        naive_dt_canonical(s2),
        naive_dt_nanos(s1) == naive_dt_nanos(s2),
    ensures
        s1 == s2,
{
    lemma_dt_decompose(s1);
    lemma_dt_decompose(s2);
    crate::datetext::lemma_date_text_unique(s1.subrange(0, 10), s2.subrange(0, 10));
    crate::datetext::lemma_num_at_injective(s1, s2, 11, 11, 2);
    crate::datetext::lemma_num_at_injective(s1, s2, 14, 14, 2);
    crate::datetext::lemma_num_at_injective(s1, s2, 17, 17, 2);
    let f = naive_dt_frac(s1);
    assert(s1.len() == s2.len());
    if f != 0 {
        let nd = s1.len() - 20;
        assert(num_at(s1, 20, nd) == num_at(s2, 20, nd)) by {
            lemma_pow10_pos(9 - nd);
            assert(num_at(s1, 20, nd) * pow10(9 - nd) == num_at(s2, 20, nd) * pow10(9 - nd));
            vstd::arithmetic::mul::lemma_mul_equality_converse(
                pow10(9 - nd),
                num_at(s1, 20, nd),
                num_at(s2, 20, nd),
            );
        }
        crate::datetext::lemma_num_at_injective(s1, s2, 20, 20, nd);
    }
    assert forall|k: int| 0 <= k < s1.len() implies s1[k] == s2[k] by {
        if k < 10 {
            assert(s1.subrange(0, 10)[k] == s2.subrange(0, 10)[k]);
        } else if k == 10 || k == 13 || k == 16 || k == 19 {
        } else if 11 <= k < 13 {
            assert(s1[11 + (k - 11)] == s2[11 + (k - 11)]);
        } else if 14 <= k < 16 {
            assert(s1[14 + (k - 14)] == s2[14 + (k - 14)]);
        } else if 17 <= k < 19 {
            assert(s1[17 + (k - 17)] == s2[17 + (k - 17)]);
        } else {
            assert(s1[20 + (k - 20)] == s2[20 + (k - 20)]);
        }
    }
    assert(s1 =~= s2);
}

/// Parses a timezone-naive timestamp text into nanoseconds since the epoch.
/// Returns `None` exactly on text that is not a well-formed timestamp or
/// denotes an instant outside the 64-bit range.
#[verifier::rlimit(50)]
pub fn parse_naive_datetime(s: &str) -> (r: Option<i64>)
    ensures
        match r {
            Some(n) => is_naive_dt_text(s@) && naive_dt_representable(s@) && n == naive_dt_nanos(
                s@,
            ),
            None => !(is_naive_dt_text(s@) && naive_dt_representable(s@)),
        },
{
    let len = s.unicode_len();
    if len < 19 {
        return None;
    }
    let date_part = s.substring_char(0, 10);
    let days = match parse_date(date_part) {
        Some(d) => d,
        None => {
            return None;
        },
    };
    if s.get_char(10) != 'T' || s.get_char(13) != ':' || s.get_char(16) != ':' {
        return None;
    }
    let h = match read_num(s, 11, 2) {
        Some(v) => v,
        None => {
            return None;
        },
    };
    let mi = match read_num(s, 14, 2) {
        Some(v) => v,
        None => {
            return None;
        },
    };
    let ss = match read_num(s, 17, 2) {
        Some(v) => v,
        None => {
            return None;
        },
    };
    if h > 23 || mi > 59 || ss > 59 {
        return None;
    }
    let f: u32 = if len == 19 {
        0
    } else {
        if len < 21 || len > 29 || s.get_char(19) != '.' {
            return None;
        }
        let nd = len - 20;
        let fv = match read_num(s, 20, nd) {
            Some(v) => v,
            None => {
                return None;
            },
        };
        proof {
            lemma_num_at_bounds(s@, 20, nd as int);
            lemma_pow10_adds(nd as int, 9 - nd as int);
            lemma_pow10_values();
            lemma_pow10_pos(9 - nd as int);
            vstd::arithmetic::mul::lemma_mul_inequality(
                fv as int,
                pow10(nd as int) - 1,
                pow10(9 - nd as int),
            );
            vstd::arithmetic::mul::lemma_mul_is_commutative(
                pow10(nd as int) - 1,
                pow10(9 - nd as int),
            );
            vstd::arithmetic::mul::lemma_mul_is_distributive_sub(
                pow10(9 - nd as int),
                pow10(nd as int),
                1,
            );
        }
        fv * pow10_exec((9 - nd) as u8)
    };
    let secs: u32 = h * 3600 + mi * 60 + ss;
    proof {
        lemma_days_before_year_bounds(1970);
        lemma_days_before_year_bounds(9999);
        lemma_days_before_month_bounds(9999, 12);
        assert(-721020 <= days as int <= 3660397);
    }
    proof {
        assert(secs <= 86399);
        assert(-721020 * 86400000000000 <= (days as int) * 86400000000000 <= 3660397
            * 86400000000000) by (nonlinear_arith)
            requires
                -721020 <= days as int <= 3660397,
        ;
    }
    let day_part: i128 = (days as i128) * (NANOS_PER_DAY as i128);
    proof {
        assert(-62296128000000000000 <= day_part <= 316259702400000000000);
    }
    let sec_part: i128 = (secs as i128) * (NANOS_PER_SEC as i128);
    proof {
        assert(0 <= sec_part <= 86399000000000);
    }
    let total: i128 = day_part + sec_part + (f as i128);
    if total < i64::MIN as i128 || total > i64::MAX as i128 {
        return None;
    }
    Some(total as i64)
}

/// Builds the text "DATE T HH:MM:SS[.frac]" from a day count and a time of
/// day split into seconds and subsecond nanoseconds, with the canonical
/// fraction rule.
#[verifier::rlimit(30)]
pub fn format_dt_pieces(days: i32, h: u32, mi: u32, ss: u32, f: u32) -> (r: String)
    requires
        day_count_in_range(days as int),
        h <= 23,
        mi <= 59,
        ss <= 59,
        f < 1_000_000_000,
    ensures
        naive_dt_canonical(r@),
        naive_dt_nanos(r@) == days * NANOS_PER_DAY + (h * 3600 + mi * 60 + ss) * NANOS_PER_SEC
            + f,
{
    let mut out = format_date(days);
    let ghost dtext = out@;
    proof {
        reveal_strlit("T");
        reveal_strlit(":");
        reveal_strlit(".");
    }
    out.append("T");
    push_digits(&mut out, h, 2);
    out.append(":");
    push_digits(&mut out, mi, 2);
    out.append(":");
    push_digits(&mut out, ss, 2);
    let ghost hd = digits_of(h as int, 2);
    let ghost mid = digits_of(mi as int, 2);
    let ghost ssd = digits_of(ss as int, 2);
    proof {
        lemma_pow10_values();
        lemma_digits_of_value(h as int, 2);
        lemma_digits_of_value(mi as int, 2);
        lemma_digits_of_value(ss as int, 2);
        assert(out@ =~= dtext + seq!['T'] + hd + seq![':'] + mid + seq![':'] + ssd);
        assert(out@.len() == 19);
        assert(out@.subrange(0, 10) =~= dtext);
        assert(seq_digits(out@, 11, 2)) by {
            assert(forall|k: int| 11 <= k < 13 ==> #[trigger] out@[k] == hd[k - 11]);
        }
        assert(seq_digits(out@, 14, 2)) by {
            assert(forall|k: int| 14 <= k < 16 ==> #[trigger] out@[k] == mid[k - 14]);
        }
        assert(seq_digits(out@, 17, 2)) by {
            assert(forall|k: int| 17 <= k < 19 ==> #[trigger] out@[k] == ssd[k - 17]);
        }
        lemma_num_at_congruence(out@, hd, 11, 0, 2);
        lemma_num_at_congruence(out@, mid, 14, 0, 2);
        lemma_num_at_congruence(out@, ssd, 17, 0, 2);
        assert(dt_head_ok(out@));
        assert(dt_head_nanos(out@) == days * NANOS_PER_DAY + (h * 3600 + mi * 60 + ss)
            * NANOS_PER_SEC);
    }
    let ghost head = out@;
    if f != 0 {
        out.append(".");
        let nd: u8 = if f % 1_000_000 == 0 {
            push_digits(&mut out, f / 1_000_000, 3);
            3
        } else if f % 1_000 == 0 {
            push_digits(&mut out, f / 1_000, 6);
            6
        } else {
            push_digits(&mut out, f, 9);
            9
        };
        proof {
            let fv: int = if f % 1_000_000 == 0 {
                f as int / 1_000_000
            } else if f % 1_000 == 0 {
                f as int / 1_000
            } else {
                f as int
            };
            let fd = digits_of(fv, nd as int);
            lemma_pow10_values();
            lemma_digits_of_value(fv, nd as int);
            assert(out@ =~= head + seq!['.'] + fd);
            assert(out@.len() == 20 + nd);
            assert(out@.subrange(0, 10) =~= head.subrange(0, 10));
            lemma_num_at_congruence(out@, head, 11, 11, 2);
            lemma_num_at_congruence(out@, head, 14, 14, 2);
            lemma_num_at_congruence(out@, head, 17, 17, 2);
            assert(seq_digits(out@, 11, 2)) by {
                assert(forall|k: int| 11 <= k < 13 ==> #[trigger] out@[k] == head[k]);
            }
            assert(seq_digits(out@, 14, 2)) by {
                assert(forall|k: int| 14 <= k < 16 ==> #[trigger] out@[k] == head[k]);
            }
            assert(seq_digits(out@, 17, 2)) by {
                assert(forall|k: int| 17 <= k < 19 ==> #[trigger] out@[k] == head[k]);
            }
            assert(dt_head_ok(out@));
            assert(dt_head_nanos(out@) == dt_head_nanos(head));
            assert(seq_digits(out@, 20, nd as int)) by {
                assert(forall|k: int| 20 <= k < 20 + nd ==> #[trigger] out@[k] == fd[k - 20]);
            }
            lemma_num_at_congruence(out@, fd, 20, 0, nd as int);
            assert(num_at(out@, 20, nd as int) == fv);
            assert(naive_dt_frac(out@) == fv * pow10(9 - nd)) by {
                assert(out@.len() - 20 == nd as int);
            }
            assert(fv * pow10(9 - nd) == f) by {
                if f % 1_000_000 == 0 {
                    assert(nd == 3);
                    assert(pow10(9 - nd) == 1_000_000) by {
                        reveal_with_fuel(pow10, 8);
                    }
                    assert((f as int / 1_000_000) * 1_000_000 + f as int % 1_000_000 == f as int)
                        by {
                        vstd::arithmetic::div_mod::lemma_fundamental_div_mod(f as int, 1_000_000);
                    }
                    assert(fv * 1_000_000 == f);
                } else if f % 1_000 == 0 {
                    assert(nd == 6);
                    assert(pow10(9 - nd) == 1_000) by {
                        reveal_with_fuel(pow10, 5);
                    }
                    assert((f as int / 1_000) * 1_000 + f as int % 1_000 == f as int) by {
                        vstd::arithmetic::div_mod::lemma_fundamental_div_mod(f as int, 1_000);
                    }
                    assert(fv * 1_000 == f);
                } else {
                    assert(nd == 9);
                    assert(pow10(9 - nd) == 1) by {
                        reveal_with_fuel(pow10, 2);
                    }
                    assert(fv * 1 == f);
                }
            }
            assert(naive_dt_canonical(out@)) by {
                assert(naive_dt_frac(out@) == f);
            }
        }
    }
    out
}

/// Formats a 64-bit nanosecond count as the canonical timezone-naive
/// timestamp text that denotes it.  Every 64-bit count has one.
#[verifier::rlimit(50)]
pub fn format_naive_datetime(n: i64) -> (r: String)
    ensures
        naive_dt_canonical(r@),
        naive_dt_nanos(r@) == n as int,
{
    let epoch_days: u32 = days_before_year_exec(1970);
    proof {
        lemma_days_before_year_bounds(1970);
    }
    let shift: i128 = (epoch_days as i128) * (NANOS_PER_DAY as i128);
    let u: i128 = (n as i128) + shift;
    assert(u >= 0);
    let npd: i128 = NANOS_PER_DAY as i128;
    let du: i128 = u / npd;
    let tod: i128 = u % npd;
    proof {
        vstd::arithmetic::div_mod::lemma_fundamental_div_mod(u as int, npd as int);
        vstd::arithmetic::div_mod::lemma_mod_division_less_than_divisor(u as int, npd as int);
        vstd::arithmetic::div_mod::lemma_div_pos_is_pos(u as int, npd as int);
        assert(npd * du <= u);
        assert(du <= 840000);
    }
    let days: i32 = (du - epoch_days as i128) as i32;
    proof {
        lemma_days_before_year_bounds(9999);
        lemma_days_before_month_bounds(9999, 12);
        assert(days as int == du - days_before_year(1970));
        assert(days_from_civil(0, 1, 1) == -days_before_year(1970));
        assert(days_from_civil(9999, 12, 31) >= 365 * 9999 - days_before_year(1970));
        assert(day_count_in_range(days as int));
    }
    let tod64: u64 = tod as u64;
    let secs: u64 = tod64 / 1_000_000_000;
    let f: u64 = tod64 % 1_000_000_000;
    let h: u64 = secs / 3600;
    let rem: u64 = secs % 3600;
    let mi: u64 = rem / 60;
    let ss: u64 = rem % 60;
    proof {
        vstd::arithmetic::div_mod::lemma_fundamental_div_mod(tod64 as int, 1_000_000_000);
        vstd::arithmetic::div_mod::lemma_mod_division_less_than_divisor(tod64 as int, 1_000_000_000);
        vstd::arithmetic::div_mod::lemma_fundamental_div_mod(secs as int, 3600);
        vstd::arithmetic::div_mod::lemma_mod_division_less_than_divisor(secs as int, 3600);
        vstd::arithmetic::div_mod::lemma_fundamental_div_mod(rem as int, 60);
        vstd::arithmetic::div_mod::lemma_mod_division_less_than_divisor(rem as int, 60);
        assert(secs < 86400);
        assert(h <= 23);
    }
    let r = format_dt_pieces(days, h as u32, mi as u32, ss as u32, f as u32);
    proof {
        assert((h * 3600 + mi * 60 + ss) * NANOS_PER_SEC + f == tod) by {
            assert(secs == h * 3600 + rem);
            assert(rem == mi * 60 + ss);
            assert(tod == secs * 1_000_000_000 + f);
            assert((h * 3600 + mi * 60 + ss) * 1_000_000_000 == secs * 1_000_000_000)
                by (nonlinear_arith)
                requires
                    secs == h * 3600 + mi * 60 + ss,
            ;
        }
        assert(days * NANOS_PER_DAY + tod == n) by {
            assert(u == npd * du + tod);
            assert(days as int == du - epoch_days);
            assert(u == n + epoch_days * npd);
            assert(days * npd == du * npd - (epoch_days as int) * npd) by (nonlinear_arith)
                requires
                    days as int == du - epoch_days,
            ;
        }
    }
    r
}

/// Length of the run of decimal digit characters starting at position `i`.
pub open spec fn digit_run(s: Seq<char>, i: int) -> int
    decreases s.len() - i,
{
    if i < 0 || i >= s.len() || !is_digit_char(s[i]) {
        0
    } else {
        1 + digit_run(s, i + 1)
    }
}

/// A digit run is exactly a maximal all-digit stretch.
pub proof fn lemma_digit_run_value(s: Seq<char>, i: int, k: int)
    requires
        0 <= i,
        0 <= k,
        i + k <= s.len(),
        forall|t: int| i <= t < i + k ==> is_digit_char(#[trigger] s[t]),
        i + k == s.len() || !is_digit_char(s[i + k]),
    ensures
        digit_run(s, i) == k,
    decreases k,
{
    if k > 0 {
        assert(is_digit_char(s[i]));
        lemma_digit_run_value(s, i + 1, k - 1);
    }
}

/// Every character inside a digit run is a digit.
pub proof fn lemma_digit_run_digits(s: Seq<char>, i: int)
    requires
        0 <= i <= s.len(),
    ensures
        i + digit_run(s, i) <= s.len(),
        forall|t: int| i <= t < i + digit_run(s, i) ==> is_digit_char(#[trigger] s[t]),
    decreases s.len() - i,
{
    if 0 <= i < s.len() && is_digit_char(s[i]) {
        lemma_digit_run_digits(s, i + 1);
    }
}

/// Number of fraction digits of an RFC 3339 text, zero when there is no dot.
pub open spec fn rfc_frac_len(s: Seq<char>) -> int {
    if s.len() > 19 && s[19] == '.' {
        digit_run(s, 20)
    } else {
        0
    }
}

/// Position where the offset part starts.
pub open spec fn rfc_off_pos(s: Seq<char>) -> int {
    if rfc_frac_len(s) > 0 {
        20 + rfc_frac_len(s)
    } else {
        19
    }
}

/// Value of the fraction part in nanoseconds.
pub open spec fn rfc_frac(s: Seq<char>) -> int {
    if rfc_frac_len(s) > 0 {
        frac_value(s, 20, rfc_frac_len(s))
    } else {
        0
    }
}

/// A well-formed offset at position `p`: 'Z' (either case) ending the text,
/// or a sign and "HH:MM" within a day ending the text.
pub open spec fn rfc_offset_ok(s: Seq<char>, p: int) -> bool {
    &&& 0 <= p < s.len()
    &&& if s[p] == 'Z' || s[p] == 'z' {
        s.len() == p + 1
    } else {
        &&& (s[p] == '+' || s[p] == '-')
        &&& s.len() == p + 6
        &&& seq_digits(s, p + 1, 2)
        &&& s[p + 3] == ':'
        &&& seq_digits(s, p + 4, 2)
        &&& num_at(s, p + 1, 2) <= 23
        &&& num_at(s, p + 4, 2) <= 59
    }
}

/// The offset in seconds east of UTC that the offset part denotes.
pub open spec fn rfc_offset_secs(s: Seq<char>, p: int) -> int {
    if s[p] == 'Z' || s[p] == 'z' {
        0
    } else {
        let mag = num_at(s, p + 1, 2) * 3600 + num_at(s, p + 4, 2) * 60;
        if s[p] == '-' {
            -mag
        } else {
            mag
        }
    }
}

/// An RFC 3339 timestamp text: head, optional fraction, explicit offset.
pub open spec fn is_rfc_text(s: Seq<char>) -> bool {
    &&& dt_head_ok(s)
    &&& s.len() >= 20
    &&& (s[19] == '.' ==> 1 <= rfc_frac_len(s) <= 9)
    &&& rfc_offset_ok(s, rfc_off_pos(s))
}

/// The UTC instant an RFC 3339 text denotes, in nanoseconds since the epoch.
pub open spec fn rfc_nanos(s: Seq<char>) -> int {
    dt_head_nanos(s) + rfc_frac(s) - rfc_offset_secs(s, rfc_off_pos(s)) * (NANOS_PER_SEC as int)
}

pub open spec fn rfc_representable(s: Seq<char>) -> bool {
    i64::MIN <= rfc_nanos(s) <= i64::MAX
}

/// The form the formatter writes: canonical fraction and the offset "+00:00".
pub open spec fn rfc_canonical_utc(s: Seq<char>) -> bool {
    &&& is_rfc_text(s)
    &&& {
        let p = rfc_off_pos(s);
        &&& s[p] == '+'
        &&& num_at(s, p + 1, 2) == 0
        &&& num_at(s, p + 4, 2) == 0
    }
    &&& {
        let f = rfc_frac(s);
        if f == 0 {
            rfc_off_pos(s) == 19
        } else if f % 1000000 == 0 {
            rfc_off_pos(s) == 23
        } else if f % 1000 == 0 {
            rfc_off_pos(s) == 26
        } else {
            rfc_off_pos(s) == 29
        }
    }
}

/// Parses an RFC 3339 timestamp text into UTC nanoseconds since the epoch.
/// Returns `None` exactly on text that is not well-formed or denotes an
/// instant outside the 64-bit range.
#[verifier::rlimit(50)]
pub fn parse_rfc3339(s: &str) -> (r: Option<i64>)
    ensures
        match r {
            Some(n) => is_rfc_text(s@) && rfc_representable(s@) && n == rfc_nanos(s@),
            None => !(is_rfc_text(s@) && rfc_representable(s@)),
        },
{
    let len = s.unicode_len();
    if len < 20 {
        return None;
    }
    let date_part = s.substring_char(0, 10);
    let days = match parse_date(date_part) {
        Some(d) => d,
        None => {
            return None;
        },
    };
    if s.get_char(10) != 'T' || s.get_char(13) != ':' || s.get_char(16) != ':' {
        return None;
    }
    let h = match read_num(s, 11, 2) {
        Some(v) => v,
        None => {
            return None;
        },
    };
    let mi = match read_num(s, 14, 2) {
        Some(v) => v,
        None => {
            return None;
        },
    };
    let ss = match read_num(s, 17, 2) {
        Some(v) => v,
        None => {
            return None;
        },
    };
    if h > 23 || mi > 59 || ss > 59 {
        return None;
    }
    let has_frac = s.get_char(19) == '.';
    let mut nd: usize = 0;
    if has_frac {
        let mut j: usize = 20;
        loop
            invariant
                20 <= j <= len,
                len == s@.len(),
                s@.len() <= usize::MAX,
                forall|t: int| 20 <= t < j ==> is_digit_char(#[trigger] s@[t]),
            ensures
                20 <= j <= len,
                forall|t: int| 20 <= t < j ==> is_digit_char(#[trigger] s@[t]),
                j == len || !is_digit_char(s@[j as int]),
            decreases len - j,
        {
            if j >= len {
                break ;
            }
            let c = s.get_char(j);
            let v = c as u32;
            if v < 48 || v > 57 {
                break ;
            }
            j = j + 1;
        }
        proof {
            lemma_digit_run_value(s@, 20, j - 20);
        }
        nd = j - 20;
        if nd < 1 || nd > 9 {
            return None;
        }
    }
    let offpos: usize = if has_frac {
        20 + nd
    } else {
        19
    };
    proof {
        assert(offpos as int == rfc_off_pos(s@));
    }
    if offpos >= len {
        return None;
    }
    let oc = s.get_char(offpos);
    let off_secs: i64 = if oc == 'Z' || oc == 'z' {
        if len != offpos + 1 {
            return None;
        }
        0
    } else if oc == '+' || oc == '-' {
        if len != offpos + 6 {
            return None;
        }
        if s.get_char(offpos + 3) != ':' {
            return None;
        }
        let oh = match read_num(s, offpos + 1, 2) {
            Some(v) => v,
            None => {
                return None;
            },
        };
        let om = match read_num(s, offpos + 4, 2) {
            Some(v) => v,
            None => {
                return None;
            },
        };
        if oh > 23 || om > 59 {
            return None;
        }
        let mag = (oh * 3600 + om * 60) as i64;
        if oc == '-' {
            -mag
        } else {
            mag
        }
    } else {
        return None;
    };
    let f: u32 = if has_frac {
        let fv = match read_num(s, 20, nd) {
            Some(v) => v,
            None => {
                // Unreachable: the scan above saw only digits in this span.
                proof {
                    assert(false);
                }
                return None;
            },
        };
        proof {
            lemma_num_at_bounds(s@, 20, nd as int);
            lemma_pow10_adds(nd as int, 9 - nd as int);
            lemma_pow10_values();
            lemma_pow10_pos(9 - nd as int);
            vstd::arithmetic::mul::lemma_mul_inequality(
                fv as int,
                pow10(nd as int) - 1,
                pow10(9 - nd as int),
            );
            vstd::arithmetic::mul::lemma_mul_is_commutative(
                pow10(nd as int) - 1,
                pow10(9 - nd as int),
            );
            vstd::arithmetic::mul::lemma_mul_is_distributive_sub(
                pow10(9 - nd as int),
                pow10(nd as int),
                1,
            );
        }
        fv * pow10_exec((9 - nd) as u8)
    } else {
        0
    };
    let secs: u32 = h * 3600 + mi * 60 + ss;
    proof {
        lemma_days_before_year_bounds(1970);
        lemma_days_before_year_bounds(9999);
        lemma_days_before_month_bounds(9999, 12);
        assert(-721020 <= days as int <= 3660397);
        assert(secs <= 86399);
        assert(-86340 <= off_secs <= 86340);
        assert(-721020 * 86400000000000 <= (days as int) * 86400000000000 <= 3660397
            * 86400000000000) by (nonlinear_arith)
            requires
                -721020 <= days as int <= 3660397,
        ;
    }
    let day_part: i128 = (days as i128) * (NANOS_PER_DAY as i128);
    proof {
        assert(-62296128000000000000 <= day_part <= 316259702400000000000);
    }
    let sec_part: i128 = (secs as i128) * (NANOS_PER_SEC as i128);
    proof {
        assert(0 <= sec_part <= 86399000000000);
    }
    let off_part: i128 = (off_secs as i128) * (NANOS_PER_SEC as i128);
    proof {
        assert(-86340000000000 <= off_part <= 86340000000000);
    }
    let total: i128 = day_part + sec_part + (f as i128) - off_part;
    if total < i64::MIN as i128 || total > i64::MAX as i128 {
        return None;
    }
    Some(total as i64)
}

/// Formats a 64-bit UTC nanosecond count as the canonical RFC 3339 text
/// with offset "+00:00" that denotes it.
#[verifier::rlimit(50)]
pub fn format_rfc3339_utc(n: i64) -> (r: String)
    ensures
        rfc_canonical_utc(r@),
        rfc_nanos(r@) == n as int,
{
    let mut out = format_naive_datetime(n);
    let ghost naive = out@;
    proof {
        reveal_strlit("+00:00");
    }
    out.append("+00:00");
    proof {
        assert("+00:00"@ =~= seq!['+', '0', '0', ':', '0', '0']);
        let off = seq!['+', '0', '0', ':', '0', '0'];
        assert(out@ =~= naive + off);
        let p = naive.len() as int;
        assert(p == 19 || p == 23 || p == 26 || p == 29);
        assert(out@.len() == p + 6);
        assert(out@.subrange(0, 10) =~= naive.subrange(0, 10));
        lemma_num_at_congruence(out@, naive, 11, 11, 2);
        lemma_num_at_congruence(out@, naive, 14, 14, 2);
        lemma_num_at_congruence(out@, naive, 17, 17, 2);
        assert(seq_digits(out@, 11, 2)) by {
            assert(forall|k: int| 11 <= k < 13 ==> #[trigger] out@[k] == naive[k]);
        }
        assert(seq_digits(out@, 14, 2)) by {
            assert(forall|k: int| 14 <= k < 16 ==> #[trigger] out@[k] == naive[k]);
        }
        assert(seq_digits(out@, 17, 2)) by {
            assert(forall|k: int| 17 <= k < 19 ==> #[trigger] out@[k] == naive[k]);
        }
        assert(dt_head_ok(out@));
        assert(dt_head_nanos(out@) == dt_head_nanos(naive));
        assert(is_digit_char('0') && !is_digit_char('+') && !is_digit_char(':'));
        if p == 19 {
            assert(out@[19] == '+');
            assert(rfc_frac_len(out@) == 0);
            assert(rfc_off_pos(out@) == 19);
            assert(rfc_frac(out@) == 0);
            assert(naive_dt_frac(naive) == 0);
        } else {
            let nd = p - 20;
            assert(out@[19] == naive[19]);
            assert(naive[19] == '.');
            assert(forall|t: int| 20 <= t < 20 + nd ==> is_digit_char(#[trigger] out@[t]));
            assert(out@[20 + nd] == '+');
            lemma_digit_run_value(out@, 20, nd);
            assert(rfc_frac_len(out@) == nd);
            assert(rfc_off_pos(out@) == p);
            lemma_num_at_congruence(out@, naive, 20, 20, nd);
            assert(rfc_frac(out@) == naive_dt_frac(naive));
        }
        let p2 = rfc_off_pos(out@);
        assert(p2 == p);
        assert(out@[p + 1] == '0' && out@[p + 2] == '0' && out@[p + 3] == ':' && out@[p + 4]
            == '0' && out@[p + 5] == '0');
        assert(seq_digits(out@, p + 1, 2));
        assert(seq_digits(out@, p + 4, 2));
        assert(num_at(out@, p + 1, 2) == 0) by {
            assert(num_at(out@, p + 1, 2) == num_at(out@, p + 1, 1) * 10 + digit_val(
                out@[p + 2],
            ));
            assert(num_at(out@, p + 1, 1) == num_at(out@, p + 1, 0) * 10 + digit_val(
                out@[p + 1],
            ));
        }
        assert(num_at(out@, p + 4, 2) == 0) by {
            assert(num_at(out@, p + 4, 2) == num_at(out@, p + 4, 1) * 10 + digit_val(
                out@[p + 5],
            ));
            assert(num_at(out@, p + 4, 1) == num_at(out@, p + 4, 0) * 10 + digit_val(
                out@[p + 4],
            ));
        }
        assert(rfc_offset_ok(out@, p2));
        assert(rfc_offset_secs(out@, p2) == 0);
        assert(rfc_nanos(out@) == naive_dt_nanos(naive));
    }
    out
}

/// A UTC nanosecond count has at most one canonical RFC 3339 text.
pub proof fn lemma_rfc_canonical_unique(s1: Seq<char>, s2: Seq<char>)
    requires
        rfc_canonical_utc(s1),
        rfc_canonical_utc(s2),
        rfc_nanos(s1) == rfc_nanos(s2),
    ensures
        s1 == s2,
{
    let p1 = rfc_off_pos(s1);
    let p2 = rfc_off_pos(s2);
    let q1 = s1.subrange(0, p1);
    let q2 = s2.subrange(0, p2);
    lemma_rfc_prefix_canonical(s1);
    lemma_rfc_prefix_canonical(s2);
    lemma_naive_dt_canonical_unique(q1, q2);
    assert(p1 == p2);
    assert forall|k: int| 0 <= k < s1.len() implies s1[k] == s2[k] by {
        if k < p1 {
            assert(q1[k] == q2[k]);
        } else {
            assert(s1[p1] == '+' && s2[p1] == '+');
            crate::datetext::lemma_num_at_injective(s1, s2, p1 + 1, p1 + 1, 2);
            crate::datetext::lemma_num_at_injective(s1, s2, p1 + 4, p1 + 4, 2);
            if p1 + 1 <= k < p1 + 3 {
                assert(s1[p1 + 1 + (k - p1 - 1)] == s2[p1 + 1 + (k - p1 - 1)]);
            } else if p1 + 4 <= k < p1 + 6 {
                assert(s1[p1 + 4 + (k - p1 - 4)] == s2[p1 + 4 + (k - p1 - 4)]);
            }
        }
    }
    assert(s1 =~= s2);
}

/// The part of a canonical RFC 3339 text before its offset is a canonical
/// timezone-naive text denoting the same instant.
proof fn lemma_rfc_prefix_canonical(s: Seq<char>)
    requires
        rfc_canonical_utc(s),
    ensures
        naive_dt_canonical(s.subrange(0, rfc_off_pos(s))),
        naive_dt_nanos(s.subrange(0, rfc_off_pos(s))) == rfc_nanos(s),
{
    let p = rfc_off_pos(s);
    let q = s.subrange(0, p);
    assert(q.len() == p);
    assert(q.subrange(0, 10) =~= s.subrange(0, 10));
    lemma_num_at_congruence(q, s, 11, 11, 2);
    lemma_num_at_congruence(q, s, 14, 14, 2);
    lemma_num_at_congruence(q, s, 17, 17, 2);
    assert(seq_digits(q, 11, 2)) by {
        assert(forall|k: int| 11 <= k < 13 ==> #[trigger] q[k] == s[k]);
    }
    assert(seq_digits(q, 14, 2)) by {
        assert(forall|k: int| 14 <= k < 16 ==> #[trigger] q[k] == s[k]);
    }
    assert(seq_digits(q, 17, 2)) by {
        assert(forall|k: int| 17 <= k < 19 ==> #[trigger] q[k] == s[k]);
    }
    assert(dt_head_ok(q));
    assert(dt_head_nanos(q) == dt_head_nanos(s));
    if rfc_frac_len(s) > 0 {
        let nd = rfc_frac_len(s);
        assert(p == 20 + nd);
        lemma_digit_run_digits(s, 20);
        assert(seq_digits(q, 20, nd)) by {
            assert(forall|k: int| 20 <= k < 20 + nd ==> #[trigger] q[k] == s[k]);
        }
        lemma_num_at_congruence(q, s, 20, 20, nd);
        assert(q.len() - 20 == nd);
        assert(naive_dt_frac(q) == rfc_frac(s));
        assert(is_naive_dt_text(q));
    } else {
        assert(p == 19);
        assert(q.len() == 19);
        assert(naive_dt_frac(q) == 0);
        assert(is_naive_dt_text(q));
    }
    assert(rfc_offset_secs(s, p) == 0);
    assert(naive_dt_nanos(q) == rfc_nanos(s));
    assert(naive_dt_canonical(q));
}

} // verus!
