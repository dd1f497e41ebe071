//! Verified parsing of the decimal integer and big-number lexemes.

use vstd::prelude::*;

use crate::lex::{all_digits, big_number_of_text, digit_value, digits_value, i64_of_text, is_digit};

verus! {

/// A digit string has a non-negative value.
pub proof fn lemma_digits_value_nonneg(s: Seq<char>)
    requires
        all_digits(s),
    ensures
        digits_value(s) >= 0,
    decreases s.len(),
{
    if s.len() > 0 {
        assert(all_digits(s.drop_last()));
        lemma_digits_value_nonneg(s.drop_last());
    }
}

/// Extending a digit string by one digit multiplies its value by ten and
/// adds the digit.
pub proof fn lemma_digits_value_step(s: Seq<char>, a: int, k: int)
    requires
        0 <= a <= k < s.len(),
    ensures
        digits_value(s.subrange(a, k + 1)) == digits_value(s.subrange(a, k)) * 10 + digit_value(
            s[k],
        ),
{
    assert(s.subrange(a, k + 1).drop_last() =~= s.subrange(a, k));
    assert(s.subrange(a, k + 1).last() == s[k]);
}

/// A digit string is worth at least any of its prefixes.
pub proof fn lemma_digits_value_prefix(s: Seq<char>, k: int)
    requires
        all_digits(s),
        0 <= k <= s.len(),
    ensures
        digits_value(s) >= digits_value(s.subrange(0, k)),
    decreases s.len() - k,
{
    if k == s.len() {
        assert(s.subrange(0, k) =~= s);
    } else {
        lemma_digits_value_step(s, 0, k);
        assert(all_digits(s.subrange(0, k)));
        lemma_digits_value_nonneg(s.subrange(0, k));
        lemma_digits_value_prefix(s, k + 1);
    }
}

/// Whether a character is an ASCII decimal digit.
pub fn digit_char(c: char) -> (r: bool)
    ensures
        r == is_digit(c),
{
    '0' <= c && c <= '9'
}

/// The line parsed as a signed 64-bit decimal integer, exactly when the
/// line is an optional sign followed by digits and the value fits.
#[verifier::loop_isolation(false)]
pub fn parse_i64(line: &str) -> (r: Option<i64>)
    ensures
        r == i64_of_text(line@),
{
    let n = line.unicode_len();
    if n == 0 {
        return None;
    }
    let c0 = line.get_char(0);
    let neg = c0 == '-';
    let has_sign = c0 == '+' || c0 == '-';
    let start: usize = if has_sign {
        1
    } else {
        0
    };
    let ghost mag = if has_sign {
        line@.skip(1)
    } else {
        line@
    };
    proof {
        assert(mag =~= line@.subrange(start as int, n as int));
    }
    if start == n {
        return None;
    }
    // The largest magnitude that fits, split into its leading digits and
    // its last digit, so that overflow is caught before multiplying.
    let head: u64 = 922337203685477580;
    let last: u64 = if neg {
        8
    } else {
        7
    };
    let ghost limit: int = 10 * head + last;
    let mut acc: u64 = 0;
    let mut k = start;
    while k < n
        invariant
            start <= k <= n,
            n == line@.len(),
            start < n,
            mag == line@.subrange(start as int, n as int),
            all_digits(line@.subrange(start as int, k as int)),
            acc == digits_value(line@.subrange(start as int, k as int)),
            acc <= limit,
            head == 922337203685477580,
            limit == 10 * head + last,
            last == 7 || last == 8,
        decreases n - k,
    {
        let c = line.get_char(k);
        if !digit_char(c) {
            proof {
                assert(mag[k - start] == line@[k as int]);
                assert(!all_digits(mag));
            }
            return None;
        }
        let d: u64 = ((c as u32) - 48) as u64;
        proof {
            assert(d == digit_value(line@[k as int]));
        }
        if acc > head || (acc == head && d > last) {
            // the digits so far already outgrow a 64-bit integer
            proof {
                lemma_digits_value_step(line@, start as int, k as int);
                let partial = line@.subrange(start as int, k + 1);
                assert(digits_value(partial) == 10 * acc + d);
                assert(digits_value(partial) > limit);
                if all_digits(mag) {
                    assert(partial =~= mag.subrange(0, k + 1 - start));
                    lemma_digits_value_prefix(mag, k + 1 - start);
                }
            }
            return None;
        }
        proof {
            lemma_digits_value_step(line@, start as int, k as int);
        }
        acc = acc * 10 + d;
        k = k + 1;
        proof {
            assert(all_digits(line@.subrange(start as int, k as int)));
        }
    }
    proof {
        assert(line@.subrange(start as int, n as int) == mag);
        assert(acc == digits_value(mag));
        if neg {
            assert(i64_of_text(line@) == Some((-(acc as int)) as i64));
        } else {
            assert(i64_of_text(line@) == Some(acc as i64));
        }
    }
    if neg {
        if acc == 9223372036854775808 {
            Some(i64::MIN)
        } else {
            Some(-(acc as i64))
        }
    } else {
        Some(acc as i64)
    }
}

/// The line accepted and stored as a big number: an optional single sign
/// followed by digits only, with a leading `+` stripped.
#[verifier::loop_isolation(false)]
pub fn parse_big_number(line: &str) -> (r: Option<String>)
    ensures
        match r {
            Some(t) => big_number_of_text(line@) == Some(t@),
            None => big_number_of_text(line@) is None,
        },
{
    let n = line.unicode_len();
    if n == 0 {
        return None;
    }
    let first = line.get_char(0);
    if !(first == '+' || first == '-' || digit_char(first)) {
        return None;
    }
    let mut k: usize = 1;
    while k < n
        invariant
            1 <= k <= n,
            n == line@.len(),
            all_digits(line@.subrange(1, k as int)),
        decreases n - k,
    {
        if !digit_char(line.get_char(k)) {
            proof {
                assert(!is_digit(line@.skip(1)[k - 1]));
            }
            return None;
        }
        k = k + 1;
    }
    proof {
        assert(line@.skip(1) =~= line@.subrange(1, n as int));
    }
    if first == '+' {
        Some(line.substring_char(1, n).to_owned())
    } else {
        Some(line.to_owned())
    }
}

} // verus!
