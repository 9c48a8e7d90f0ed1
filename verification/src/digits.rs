//! Decimal digit arithmetic on character sequences: reading fixed-width
//! numbers out of text and writing them back, with exact value contracts.

use vstd::prelude::*;

verus! {

pub open spec fn digit_char(v: int) -> char {
    (48 + v) as char
}

pub open spec fn digit_val(c: char) -> int {
    c as int - 48
}

pub open spec fn is_digit_char(c: char) -> bool {
    48 <= c as int <= 57
}

/// The `n` characters of `s` starting at `i` are all decimal digits.
pub open spec fn seq_digits(s: Seq<char>, i: int, n: int) -> bool {
    forall|k: int| i <= k < i + n ==> is_digit_char(#[trigger] s[k])
}

/// Value of the `n`-digit decimal number written in `s` starting at `i`.
pub open spec fn num_at(s: Seq<char>, i: int, n: int) -> int
    decreases n,
{
    if n <= 0 {
        0
    } else {
        num_at(s, i, n - 1) * 10 + digit_val(s[i + n - 1])
    }
}

pub open spec fn pow10(n: int) -> int
    decreases n,
{
    if n <= 0 {
        1
    } else {
        10 * pow10(n - 1)
    }
}

/// The low `n` decimal digits of `v`, most significant first.
pub open spec fn digits_of(v: int, n: int) -> Seq<char>
    decreases n,
{
    if n <= 0 {
        Seq::empty()
    } else {
        digits_of(v / 10, n - 1).push(digit_char(v % 10))
    }
}

pub proof fn lemma_pow10_mono(a: int, b: int)
    requires
        a <= b,
    ensures
        pow10(a) <= pow10(b),
    decreases b - a,
{
    if a < b {
        lemma_pow10_mono(a, b - 1);
        lemma_pow10_pos(b - 1);
    }
}

pub proof fn lemma_pow10_values()
    ensures
        pow10(1) == 10,
        pow10(2) == 100,
        pow10(3) == 1000,
        pow10(4) == 10000,
        pow10(6) == 1000000,
        pow10(9) == 1000000000,
{
    reveal_with_fuel(pow10, 11);
}

pub proof fn lemma_pow10_adds(a: int, b: int)
    requires
        0 <= a,
        0 <= b,
    ensures
        pow10(a) * pow10(b) == pow10(a + b),
    decreases a,
{
    if a > 0 {
        lemma_pow10_adds(a - 1, b);
        assert(pow10(a) * pow10(b) == 10 * (pow10(a - 1) * pow10(b)))
            by (nonlinear_arith)
            requires
                pow10(a) == 10 * pow10(a - 1),
        ;
    }
}

/// Computes a small power of ten.
pub fn pow10_exec(n: u8) -> (r: u32)
    requires
        n <= 9,
    ensures
        r == pow10(n as int),
{
    let mut acc: u32 = 1;
    let mut i: u8 = 0;
    while i < n
        invariant
            i <= n <= 9,
            acc == pow10(i as int),
        decreases n - i,
    {
        proof {
            lemma_pow10_mono(i as int + 1, 9);
            lemma_pow10_values();
        }
        acc = acc * 10;
        i = i + 1;
    }
    acc
}

pub proof fn lemma_pow10_pos(n: int)
    ensures
        pow10(n) >= 1,
    decreases n,
{
    if n > 0 {
        lemma_pow10_pos(n - 1);
    }
}

pub proof fn lemma_num_at_bounds(s: Seq<char>, i: int, n: int)
    requires
        seq_digits(s, i, n),
    ensures
        0 <= num_at(s, i, n) < pow10(n),
    decreases n,
{
    if n <= 0 {
    } else {
        lemma_num_at_bounds(s, i, n - 1);
    }
}

/// `num_at` only reads the characters it covers.
pub proof fn lemma_num_at_congruence(s1: Seq<char>, s2: Seq<char>, i1: int, i2: int, n: int)
    requires
        forall|k: int| 0 <= k < n ==> #[trigger] s1[i1 + k] == s2[i2 + k],
    ensures
        num_at(s1, i1, n) == num_at(s2, i2, n),
    decreases n,
{
    if n > 0 {
        lemma_num_at_congruence(s1, s2, i1, i2, n - 1);
        assert(s1[i1 + (n - 1)] == s2[i2 + (n - 1)]);
    }
}

pub proof fn lemma_digits_of_len(v: int, n: int)
    requires
        n >= 0,
    ensures
        digits_of(v, n).len() == n,
    decreases n,
{
    if n > 0 {
        lemma_digits_of_len(v / 10, n - 1);
    }
}

/// Writing `v` as `n` digits and reading the result back yields `v`.
pub proof fn lemma_digits_of_value(v: int, n: int)
    requires
        0 <= v < pow10(n),
        n >= 0,
    ensures
        digits_of(v, n).len() == n,
        seq_digits(digits_of(v, n), 0, n),
        num_at(digits_of(v, n), 0, n) == v,
    decreases n,
{
    lemma_digits_of_len(v, n);
    if n > 0 {
        lemma_digits_of_value(v / 10, n - 1);
        let prev = digits_of(v / 10, n - 1);
        let whole = digits_of(v, n);
        assert(forall|k: int| 0 <= k < n - 1 ==> whole[k] == prev[k]);
        assert(seq_digits(whole, 0, n)) by {
            assert(forall|k: int| 0 <= k < n - 1 ==> whole[k] == prev[k] && is_digit_char(
                #[trigger] whole[k],
            ));
            assert(is_digit_char(whole[n - 1]));
        }
        lemma_num_at_congruence(whole, prev, 0, 0, n - 1);
        assert(num_at(whole, 0, n) == (v / 10) * 10 + v % 10);
        assert((v / 10) * 10 + v % 10 == v) by {
            vstd::arithmetic::div_mod::lemma_fundamental_div_mod(v, 10);
        }
    }
}

/// Reads the `n`-digit number at character position `i` of `s`.
/// Returns `None` exactly when some covered character is not a digit.
pub fn read_num(s: &str, i: usize, n: usize) -> (r: Option<u32>)
    requires
        i + n <= s@.len(),
        s@.len() <= usize::MAX,
        n <= 9,
    ensures
        match r {
            Some(v) => seq_digits(s@, i as int, n as int) && v == num_at(s@, i as int, n as int),
            None => !seq_digits(s@, i as int, n as int),
        },
{
    let mut acc: u32 = 0;
    let mut k: usize = 0;
    while k < n
        invariant
            k <= n <= 9,
            i + n <= s@.len(),
            s@.len() <= usize::MAX,
            seq_digits(s@, i as int, k as int),
            acc == num_at(s@, i as int, k as int),
            acc < pow10(k as int),
        decreases n - k,
    {
        let c = s.get_char(i + k);
        let v = c as u32;
        if v < 48 || v > 57 {
            assert(!is_digit_char(s@[i + k]));
            assert(!seq_digits(s@, i as int, n as int));
            return None;
        }
        proof {
            lemma_pow10_mono(k as int + 1, 9);
            lemma_pow10_values();
        }
        acc = acc * 10 + (v - 48);
        k = k + 1;
    }
    Some(acc)
}

/// Canonical unpadded decimal text of a nonnegative number.
pub open spec fn dec_seq(v: int) -> Seq<char>
    decreases v,
{
    if v < 10 {
        seq![digit_char(v)]
    } else {
        dec_seq(v / 10).push(digit_char(v % 10))
    }
}

/// Decimal text of a possibly negative number, with a leading minus sign.
pub open spec fn dec_seq_signed(v: int) -> Seq<char> {
    if v < 0 {
        seq!['-'] + dec_seq(-v)
    } else {
        dec_seq(v)
    }
}

pub fn push_digit(s: &mut String, v: u8)
    requires
        v < 10,
    ensures
        final(s)@ == old(s)@.push(digit_char(v as int)),
{
    match v {
        0 => {
            proof {
                reveal_strlit("0");
            }
            s.append("0");
        },
        1 => {
            proof {
                reveal_strlit("1");
            }
            s.append("1");
        },
        2 => {
            proof {
                reveal_strlit("2");
            }
            s.append("2");
        },
        3 => {
            proof {
                reveal_strlit("3");
            }
            s.append("3");
        },
        4 => {
            proof {
                reveal_strlit("4");
            }
            s.append("4");
        },
        5 => {
            proof {
                reveal_strlit("5");
            }
            s.append("5");
        },
        6 => {
            proof {
                reveal_strlit("6");
            }
            s.append("6");
        },
        7 => {
            proof {
                reveal_strlit("7");
            }
            s.append("7");
        },
        8 => {
            proof {
                reveal_strlit("8");
            }
            s.append("8");
        },
        _ => {
            proof {
                reveal_strlit("9");
            }
            s.append("9");
        },
    }
    proof {
        assert(s@ =~= old(s)@.push(digit_char(v as int)));
    }
}

/// Appends `v` as exactly `width` decimal digits, most significant first.
pub fn push_digits(s: &mut String, v: u32, width: u8)
    requires
        width <= 9,
    ensures
        final(s)@ == old(s)@ + digits_of(v as int, width as int),
    decreases width,
{
    if width > 0 {
        push_digits(s, v / 10, width - 1);
        push_digit(s, (v % 10) as u8);
        proof {
            assert(s@ =~= old(s)@ + digits_of(v as int, width as int));
        }
    } else {
        proof {
            assert(s@ =~= old(s)@ + digits_of(v as int, 0));
        }
    }
}

pub fn push_dec_u64(s: &mut String, v: u64)
    ensures
        final(s)@ == old(s)@ + dec_seq(v as int),
    decreases v,
{
    if v < 10 {
        push_digit(s, v as u8);
        proof {
            assert(s@ =~= old(s)@ + dec_seq(v as int));
        }
    } else {
        push_dec_u64(s, v / 10);
        push_digit(s, (v % 10) as u8);
        proof {
            assert(s@ =~= old(s)@ + dec_seq(v as int));
        }
    }
}

pub fn push_dec_i64(s: &mut String, v: i64)
    ensures
        final(s)@ == old(s)@ + dec_seq_signed(v as int),
{
    if v < 0 {
        proof {
            reveal_strlit("-");
        }
        s.append("-");
        let mag: u64 = (-(v as i128)) as u64;
        push_dec_u64(s, mag);
        proof {
            assert(s@ =~= old(s)@ + dec_seq_signed(v as int));
        }
    } else {
        push_dec_u64(s, v as u64);
        proof {
            assert(s@ =~= old(s)@ + dec_seq_signed(v as int));
        }
    }
}

} // verus!
