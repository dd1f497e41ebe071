//! The verified check of the floating-point grammar that the `Double`
//! type accepts.

use vstd::prelude::*;

use crate::lex::{
    all_digits, decimal_split_at, eq_case_insensitive, is_decimal_body, is_double_text,
    is_exponent, is_mantissa, mantissa_split_at, matches_word,
};

verus! {

/// Whether `c` is the lowercase ASCII letter `l`, in either case.
fn eq_ci(c: char, l: char) -> (r: bool)
    ensures
        r == eq_case_insensitive(c, l),
{
    c == l || (c as u32) + 32 == (l as u32)
}

/// Whether every character of `line[a..b]` is a digit.
#[verifier::loop_isolation(false)]
fn digits_in(line: &str, a: usize, b: usize) -> (r: bool)
    requires
        a <= b <= line@.len(),
    ensures
        r == all_digits(line@.subrange(a as int, b as int)),
{
    let ghost sub = line@.subrange(a as int, b as int);
    let mut k = a;
    while k < b
        invariant
            a <= k <= b,
            forall|m: int| a <= m < k ==> crate::lex::is_digit(#[trigger] line@[m]),
        decreases b - k,
    {
        let c = line.get_char(k);
        if !crate::number::digit_char(c) {
            proof {
                assert(sub[k - a] == line@[k as int]);
            }
            return false;
        }
        k = k + 1;
    }
    proof {
        assert forall|m: int| 0 <= m < sub.len() implies crate::lex::is_digit(
            #[trigger] sub[m],
        ) by {
            assert(sub[m] == line@[a + m]);
        }
    }
    true
}

/// Whether `line[a..b]` is a mantissa: digits with at most one point and
/// at least one digit.
#[verifier::loop_isolation(false)]
fn mantissa_in(line: &str, a: usize, b: usize) -> (r: bool)
    requires
        a <= b <= line@.len(),
    ensures
        r == is_mantissa(line@.subrange(a as int, b as int)),
{
    let ghost sub = line@.subrange(a as int, b as int);
    if digits_in(line, a, b) {
        if b > a {
            return true;
        }
    }
    let mut d = a;
    while d < b
        invariant
            a <= d <= b,
            forall|m: int| 0 <= m < d - a ==> !mantissa_split_at(sub, m),
        decreases b - d,
    {
        let ok = line.get_char(d) == '.' && (d > a || b > d + 1) && digits_in(line, a, d)
            && digits_in(line, d + 1, b);
        proof {
            assert(sub.subrange(0, d - a) =~= line@.subrange(a as int, d as int));
            assert(sub.skip(d - a + 1) =~= line@.subrange(d + 1, b as int));
            assert(sub[d - a] == line@[d as int]);
        }
        if ok {
            proof {
                assert(mantissa_split_at(sub, d - a));
            }
            return true;
        }
        proof {
            assert(!mantissa_split_at(sub, d - a));
        }
        d = d + 1;
    }
    proof {
        assert(!is_mantissa(sub));
    }
    false
}

/// Whether `line[e..b]` is an exponent part: `e` or `E`, an optional
/// sign, then at least one digit.
fn exponent_in(line: &str, e: usize, b: usize) -> (r: bool)
    requires
        e <= b <= line@.len(),
    ensures
        r == is_exponent(line@.subrange(e as int, b as int)),
{
    let ghost sub = line@.subrange(e as int, b as int);
    if b - e < 2 {
        return false;
    }
    let c = line.get_char(e);
    if !(c == 'e' || c == 'E') {
        return false;
    }
    let c1 = line.get_char(e + 1);
    let t0: usize = if c1 == '+' || c1 == '-' {
        e + 2
    } else {
        e + 1
    };
    proof {
        if c1 == '+' || c1 == '-' {
            assert(sub.skip(2) =~= line@.subrange(t0 as int, b as int));
        } else {
            assert(sub.skip(1) =~= line@.subrange(t0 as int, b as int));
        }
    }
    b > t0 && digits_in(line, t0, b)
}

/// Whether `line[a..b]` is a decimal literal: a mantissa, optionally
/// followed by an exponent part.
#[verifier::loop_isolation(false)]
fn decimal_in(line: &str, a: usize, b: usize) -> (r: bool)
    requires
        a <= b <= line@.len(),
    ensures
        r == is_decimal_body(line@.subrange(a as int, b as int)),
{
    let ghost sub = line@.subrange(a as int, b as int);
    if mantissa_in(line, a, b) {
        return true;
    }
    let mut e = a;
    while e < b
        invariant
            a <= e <= b,
            forall|m: int| 0 <= m < e - a ==> !decimal_split_at(sub, m),
        decreases b - e,
    {
        let c = line.get_char(e);
        let ok = (c == 'e' || c == 'E') && mantissa_in(line, a, e) && exponent_in(line, e, b);
        proof {
            assert(sub.subrange(0, e - a) =~= line@.subrange(a as int, e as int));
            assert(sub.skip(e - a) =~= line@.subrange(e as int, b as int));
            assert(sub[e - a] == line@[e as int]);
        }
        if ok {
            proof {
                assert(decimal_split_at(sub, e - a));
            }
            return true;
        }
        proof {
            assert(!decimal_split_at(sub, e - a));
        }
        e = e + 1;
    }
    proof {
        assert(!is_decimal_body(sub));
    }
    false
}

/// Whether `line[a..]` spells `inf`, ignoring ASCII case.
fn inf_in(line: &str, a: usize) -> (r: bool)
    requires
        a <= line@.len(),
    ensures
        r == matches_word(line@.skip(a as int), seq!['i', 'n', 'f']),
{
    let n = line.unicode_len();
    let r = n - a == 3 && eq_ci(line.get_char(a), 'i') && eq_ci(line.get_char(a + 1), 'n')
        && eq_ci(line.get_char(a + 2), 'f');
    proof {
        let sub = line@.skip(a as int);
        if r {
            assert forall|m: int| 0 <= m < sub.len() implies eq_case_insensitive(
                #[trigger] sub[m],
                seq!['i', 'n', 'f'][m],
            ) by {
                assert(sub[m] == line@[a + m]);
            }
        } else {
            if matches_word(sub, seq!['i', 'n', 'f']) {
                assert(sub[0] == line@[a as int]);
                assert(sub[1] == line@[a + 1]);
                assert(sub[2] == line@[a + 2]);
            }
        }
    }
    r
}

/// Whether `line[a..]` spells `nan`, ignoring ASCII case.
fn nan_in(line: &str, a: usize) -> (r: bool)
    requires
        a <= line@.len(),
    ensures
        r == matches_word(line@.skip(a as int), seq!['n', 'a', 'n']),
{
    let n = line.unicode_len();
    let r = n - a == 3 && eq_ci(line.get_char(a), 'n') && eq_ci(line.get_char(a + 1), 'a')
        && eq_ci(line.get_char(a + 2), 'n');
    proof {
        let sub = line@.skip(a as int);
        let w = seq!['n', 'a', 'n'];
        if r {
            assert forall|m: int| 0 <= m < sub.len() implies eq_case_insensitive(
                #[trigger] sub[m],
                w[m],
            ) by {
                assert(sub[m] == line@[a + m]);
            }
        } else {
            if matches_word(sub, w) {
                assert(sub[0] == line@[a as int]);
                assert(sub[1] == line@[a + 1]);
                assert(sub[2] == line@[a + 2]);
            }
        }
    }
    r
}

/// Whether the whole line is a text the double type accepts.
pub fn double_lexeme(line: &str) -> (r: bool)
    ensures
        r == is_double_text(line@),
{
    let n = line.unicode_len();
    let start: usize = if n > 0 {
        let c0 = line.get_char(0);
        if c0 == '+' || c0 == '-' {
            1
        } else {
            0
        }
    } else {
        0
    };
    proof {
        assert(line@.skip(0) =~= line@);
        if start == 1 {
            assert(line@.skip(1) =~= line@.subrange(1, n as int));
        } else {
            assert(line@.skip(0) =~= line@.subrange(0, n as int));
        }
    }
    inf_in(line, start) || nan_in(line, 0) || decimal_in(line, start, n)
}

} // verus!
