//! Lexical rules of the wire format: CR-LF-terminated lines, decimal
//! integers, big numbers, the floating-point grammar, and whitespace
//! tokenization for the legacy inline form.

use vstd::prelude::*;

verus! {

/// A carriage return or a line feed.
pub open spec fn is_line_break(c: char) -> bool {
    c == '\r' || c == '\n'
}

/// No carriage return and no line feed anywhere in `s[i..j]`.
pub open spec fn break_free(s: Seq<char>, i: int, j: int) -> bool {
    forall|k: int| i <= k < j ==> !is_line_break(#[trigger] s[k])
}

/// Position `j` carries the terminator of the line that starts at `i`:
/// the exact two-character sequence CR LF, with no stray CR or LF in the
/// content before it.
pub open spec fn is_line_at(s: Seq<char>, i: int, j: int) -> bool {
    &&& i <= j
    &&& j + 1 < s.len()
    &&& s[j] == '\r'
    &&& s[j + 1] == '\n'
    &&& break_free(s, i, j)
}

/// The CR-LF-terminated line that starts at position `i`: its content
/// (terminator excluded) and the position just past the terminator.
/// `None` when the input ends first or a bare CR or LF appears.
pub open spec fn line_at(s: Seq<char>, i: int) -> Option<(Seq<char>, int)> {
    if exists|j: int| is_line_at(s, i, j) {
        let j = choose|j: int| is_line_at(s, i, j);
        Some((s.subrange(i, j), j + 2))
    } else {
        None
    }
}

/// A line has at most one terminator position.
pub proof fn lemma_line_at_unique(s: Seq<char>, i: int, j1: int, j2: int)
    requires
        is_line_at(s, i, j1),
        is_line_at(s, i, j2),
    ensures
        j1 == j2,
{
    if j1 < j2 {
        assert(!is_line_break(s[j1]));
    }
    if j2 < j1 {
        assert(!is_line_break(s[j2]));
    }
}

/// An ASCII decimal digit.
pub open spec fn is_digit(c: char) -> bool {
    '0' <= c && c <= '9'
}

/// The numeric value of a digit.
pub open spec fn digit_value(c: char) -> int {
    c as int - '0' as int
}

/// Every character of `s` is a digit.
pub open spec fn all_digits(s: Seq<char>) -> bool {
    forall|k: int| 0 <= k < s.len() ==> is_digit(#[trigger] s[k])
}

/// The value of a digit string read in base ten.
pub open spec fn digits_value(s: Seq<char>) -> int
    decreases s.len(),
{
    if s.len() == 0 {
        0
    } else {
        digits_value(s.drop_last()) * 10 + digit_value(s.last())
    }
}

/// The signed integer denoted by `s`: an optional `+` or `-` sign
/// followed by at least one digit; anything else denotes nothing.
pub open spec fn int_of_text(s: Seq<char>) -> Option<int> {
    let mag = if s.len() > 0 && (s[0] == '+' || s[0] == '-') {
        s.skip(1)
    } else {
        s
    };
    if mag.len() > 0 && all_digits(mag) {
        if s[0] == '-' {
            Some(-digits_value(mag))
        } else {
            Some(digits_value(mag))
        }
    } else {
        None
    }
}

/// `int_of_text`, restricted to the values a 64-bit signed integer holds:
/// exactly what a strict decimal parse of `s` into such an integer yields.
pub open spec fn i64_of_text(s: Seq<char>) -> Option<i64> {
    match int_of_text(s) {
        Some(v) => if i64::MIN <= v <= i64::MAX {
            Some(v as i64)
        } else {
            None
        },
        None => None,
    }
}

/// The stored text of a big number: the line must be an optional single
/// `+` or `-` sign, or a digit, followed by digits only; a leading `+`
/// is stripped, a leading `-` is kept.
pub open spec fn big_number_of_text(s: Seq<char>) -> Option<Seq<char>> {
    if s.len() == 0 {
        None
    } else if !(s[0] == '+' || s[0] == '-' || is_digit(s[0])) {
        None
    } else if !all_digits(s.skip(1)) {
        None
    } else if s[0] == '+' {
        Some(s.skip(1))
    } else {
        Some(s)
    }
}

/// `c` equals the lowercase ASCII letter `l`, in either case.
pub open spec fn eq_case_insensitive(c: char, l: char) -> bool {
    c == l || c as int == l as int - 32
}

/// `s` spells `w` (a lowercase word), ignoring ASCII case.
pub open spec fn matches_word(s: Seq<char>, w: Seq<char>) -> bool {
    s.len() == w.len() && forall|k: int|
        0 <= k < s.len() ==> eq_case_insensitive(#[trigger] s[k], w[k])
}

/// Position `d` splits `s` into a valid mantissa: a decimal point with
/// digits on both sides and at least one digit somewhere.
pub open spec fn mantissa_split_at(s: Seq<char>, d: int) -> bool {
    &&& 0 <= d < s.len()
    &&& s[d] == '.'
    &&& all_digits(s.subrange(0, d))
    &&& all_digits(s.skip(d + 1))
    &&& (d > 0 || s.len() > d + 1)
}

/// The mantissa of a decimal floating-point literal: digits, optionally
/// with one point, and at least one digit in total.
pub open spec fn is_mantissa(s: Seq<char>) -> bool {
    ||| (s.len() > 0 && all_digits(s))
    ||| (exists|d: int| #[trigger] mantissa_split_at(s, d))
}

/// An exponent part: `e` or `E`, an optional sign, then at least one digit.
pub open spec fn is_exponent(s: Seq<char>) -> bool {
    s.len() >= 2 && (s[0] == 'e' || s[0] == 'E') && {
        let t = if s[1] == '+' || s[1] == '-' {
            s.skip(2)
        } else {
            s.skip(1)
        };
        t.len() > 0 && all_digits(t)
    }
}

/// Position `e` splits `s` into a mantissa and an exponent part.
pub open spec fn decimal_split_at(s: Seq<char>, e: int) -> bool {
    &&& 0 <= e < s.len()
    &&& (s[e] == 'e' || s[e] == 'E')
    &&& is_mantissa(s.subrange(0, e))
    &&& is_exponent(s.skip(e))
}

/// A decimal floating-point literal without its sign: a mantissa,
/// optionally followed by an exponent part.
pub open spec fn is_decimal_body(s: Seq<char>) -> bool {
    ||| is_mantissa(s)
    ||| (exists|e: int| #[trigger] decimal_split_at(s, e))
}

/// The texts accepted as a double: an optional sign followed by the
/// word `inf` or by a decimal literal with an optional exponent, or the
/// unsigned word `nan`; both words in any ASCII case.  Anything else,
/// `infinity` and a signed `nan` included, is malformed.
pub open spec fn is_double_text(s: Seq<char>) -> bool {
    let body = if s.len() > 0 && (s[0] == '+' || s[0] == '-') {
        s.skip(1)
    } else {
        s
    };
    ||| matches_word(body, seq!['i', 'n', 'f'])
    ||| matches_word(s, seq!['n', 'a', 'n'])
    ||| is_decimal_body(body)
}

/// Whether a character has the Unicode white-space property; a function
/// of the character alone.
pub uninterp spec fn white_space(c: char) -> bool;

/// Relies on `char::is_whitespace`: the Unicode white-space property of
/// the character alone decides the result (`white_space`).
#[verifier::external_body]
pub(crate) fn char_is_white_space(c: char) -> (r: bool)
    ensures
        r == white_space(c),
{
    c.is_whitespace()
}

/// The position of the first white-space character at or after `i`, or
/// the end of the text.
pub open spec fn token_end(s: Seq<char>, i: int) -> int
    decreases s.len() - i,
{
    if i < 0 || i >= s.len() {
        s.len() as int
    } else if white_space(s[i]) {
        i
    } else {
        token_end(s, i + 1)
    }
}

/// `token_end` stays within the text, passes no white space, and stops
/// only at white space or the end.
pub proof fn lemma_token_end(s: Seq<char>, i: int)
    requires
        0 <= i <= s.len(),
    ensures
        i <= token_end(s, i) <= s.len(),
        forall|k: int| i <= k < token_end(s, i) ==> !white_space(#[trigger] s[k]),
        token_end(s, i) < s.len() ==> white_space(s[token_end(s, i)]),
    decreases s.len() - i,
{
    if i < s.len() && !white_space(s[i]) {
        lemma_token_end(s, i + 1);
    }
}

/// The white-space-separated tokens of `s[i..]`, in order.
pub open spec fn tokens_from(s: Seq<char>, i: int) -> Seq<Seq<char>>
    decreases s.len() - i,
        via tokens_from_decreases
{
    if i < 0 || i >= s.len() {
        Seq::empty()
    } else if white_space(s[i]) {
        tokens_from(s, i + 1)
    } else {
        seq![s.subrange(i, token_end(s, i))] + tokens_from(s, token_end(s, i))
    }
}

#[via_fn]
proof fn tokens_from_decreases(s: Seq<char>, i: int) {
    if 0 <= i < s.len() && !white_space(s[i]) {
        lemma_token_end(s, i + 1);
    }
}

/// The white-space-separated tokens of the whole of `s`.
pub open spec fn tokens_of(s: Seq<char>) -> Seq<Seq<char>> {
    tokens_from(s, 0)
}

} // verus!
