//! The decoder's laws: general properties of the grammar, stated over
//! the specification-level parser and proved once and for all.  They
//! carry over to [`crate::RESP::parse`] through its contract.

use vstd::prelude::*;

use crate::grammar::{is_type_tag, spec_elements, spec_parse, spec_value};
use crate::lex::{
    all_digits, big_number_of_text, break_free, i64_of_text, is_digit, is_double_text,
    is_line_at, is_line_break, line_at, tokens_of,
};
use crate::value::SpecValue;

verus! {

/// For every length-prefixed payload form, the payload is accepted
/// exactly when its character count equals the declared length; any
/// other count fails, in either direction.
pub proof fn lemma_declared_length_exact(
    s: Seq<char>,
    i: int,
    nested: bool,
    line: Seq<char>,
    after: int,
    n: i64,
    payload: Seq<char>,
    end: int,
)
    requires
        0 <= i < s.len(),
        s[i] == '$' || s[i] == '!' || s[i] == '=',
        line_at(s, i + 1) == Some((line, after)),
        i64_of_text(line) == Some(n),
        n >= 0,
        line_at(s, after) == Some((payload, end)),
    ensures
        payload.len() != n ==> spec_value(s, i, nested) is None,
        s[i] == '$' && payload.len() == n ==> spec_value(s, i, nested) == Some(
            (SpecValue::BulkString(payload), end),
        ),
        s[i] == '!' && payload.len() == n ==> spec_value(s, i, nested) == Some(
            (SpecValue::BulkError(payload), end),
        ),
{
}

/// A bulk string declared with length -1 is the null bulk string, and no
/// payload line is consumed: decoding resumes right after the length
/// line.  A length below -1 always fails.
pub proof fn lemma_null_bulk_string(
    s: Seq<char>,
    i: int,
    nested: bool,
    line: Seq<char>,
    after: int,
    n: i64,
)
    requires
        0 <= i < s.len(),
        s[i] == '$',
        line_at(s, i + 1) == Some((line, after)),
        i64_of_text(line) == Some(n),
    ensures
        n == -1 ==> spec_value(s, i, nested) == Some((SpecValue::NullBulkString, after)),
        n < -1 ==> spec_value(s, i, nested) is None,
{
}

/// An array, set or push with a declared non-negative count holds
/// exactly that many elements, decoded in order from the text right
/// after the count line; it is accepted exactly when that many elements
/// can be decoded there (and, for a push, the value is not nested).
pub proof fn lemma_aggregate_count(
    s: Seq<char>,
    i: int,
    nested: bool,
    line: Seq<char>,
    after: int,
    n: i64,
)
    requires
        0 <= i < s.len(),
        s[i] == '*' || s[i] == '~' || s[i] == '>',
        line_at(s, i + 1) == Some((line, after)),
        i64_of_text(line) == Some(n),
        n >= 0,
        0 <= after <= s.len(),
    ensures
        spec_value(s, i, nested) is Some <==> (spec_elements(s, after, n as nat) is Some && (s[i]
            == '>' ==> !nested)),
        spec_value(s, i, nested) matches Some((v, end)) ==> match v {
            SpecValue::Array(vs) => s[i] == '*' && vs.len() == n && spec_elements(
                s,
                after,
                n as nat,
            ) == Some((vs, end)),
            SpecValue::SetValue(vs) => s[i] == '~' && vs.len() == n && spec_elements(
                s,
                after,
                n as nat,
            ) == Some((vs, end)),
            SpecValue::Push(vs) => s[i] == '>' && vs.len() == n && spec_elements(
                s,
                after,
                n as nat,
            ) == Some((vs, end)),
            _ => false,
        },
{
    crate::grammar::lemma_elements_advance(s, after, n as nat);
}

/// A verbatim string is accepted exactly when its declared length equals
/// the payload's character count, the length is at least four, and the
/// first colon of the payload is its fourth character; the encoding is
/// then exactly three characters and the declared length equals
/// `3 (encoding) + 1 (colon) + data length`.
pub proof fn lemma_verbatim_shape(
    s: Seq<char>,
    i: int,
    nested: bool,
    line: Seq<char>,
    after: int,
    n: i64,
    payload: Seq<char>,
    end: int,
)
    requires
        0 <= i < s.len(),
        s[i] == '=',
        line_at(s, i + 1) == Some((line, after)),
        i64_of_text(line) == Some(n),
        line_at(s, after) == Some((payload, end)),
    ensures
        spec_value(s, i, nested) is Some <==> (n >= 4 && payload.len() == n && payload[3] == ':'
            && payload[0] != ':' && payload[1] != ':' && payload[2] != ':'),
        spec_value(s, i, nested) matches Some((v, e)) ==> ({
            &&& e == end
            &&& v matches SpecValue::VerbatimString { encoding, data } && encoding
                == payload.subrange(0, 3) && data == payload.subrange(4, payload.len() as int)
                && encoding.len() == 3 && n == encoding.len() + 1 + data.len()
        }),
{
}

/// A push value is legal only at the top level: wherever a nested value
/// is decoded, the push tag fails at once, and no nested decode ever
/// yields a push value.
pub proof fn lemma_no_nested_push(s: Seq<char>, i: int)
    ensures
        0 <= i < s.len() && s[i] == '>' ==> spec_value(s, i, true) is None,
        spec_value(s, i, true) matches Some((v, end)) ==> !(v is Push),
{
}

/// A big number accepts an optional single sign followed by digits only,
/// stores the digits verbatim with a leading `+` stripped and a leading
/// `-` kept, and fails on any non-digit after the sign.
pub proof fn lemma_big_number(
    s: Seq<char>,
    i: int,
    nested: bool,
    line: Seq<char>,
    after: int,
)
    requires
        0 <= i < s.len(),
        s[i] == '(',
        line_at(s, i + 1) == Some((line, after)),
    ensures
        spec_value(s, i, nested) is Some <==> big_number_of_text(line) is Some,
        line.len() > 0 && line[0] == '+' && all_digits(line.skip(1)) ==> spec_value(s, i, nested)
            == Some((SpecValue::BigNumber(line.skip(1)), after)),
        line.len() > 0 && (line[0] == '-' || is_digit(line[0])) && all_digits(line.skip(1))
            ==> spec_value(s, i, nested) == Some((SpecValue::BigNumber(line), after)),
        (exists|k: int| 1 <= k < line.len() && !is_digit(#[trigger] line[k])) ==> spec_value(
            s,
            i,
            nested,
        ) is None,
{
    if exists|k: int| 1 <= k < line.len() && !is_digit(#[trigger] line[k]) {
        let k = choose|k: int| 1 <= k < line.len() && !is_digit(#[trigger] line[k]);
        assert(!is_digit(line.skip(1)[k - 1]));
    }
}

/// A double accepts exactly the protocol's floating-point lexemes
/// (signed decimal literals with an optional exponent in either letter
/// case, a signed or unsigned `inf`, and an unsigned `nan`, the words
/// case-insensitive), and keeps the accepted lexeme.
pub proof fn lemma_double_accepts(
    s: Seq<char>,
    i: int,
    nested: bool,
    line: Seq<char>,
    after: int,
)
    requires
        0 <= i < s.len(),
        s[i] == ',',
        line_at(s, i + 1) == Some((line, after)),
    ensures
        spec_value(s, i, nested) is Some <==> is_double_text(line),
        is_double_text(line) ==> spec_value(s, i, nested) == Some(
            (SpecValue::Double(line), after),
        ),
{
}

/// Terminators are strict: if the first CR or LF at or after `i` does
/// not begin the exact two-character sequence CR LF, there is no line at
/// `i`, so every value whose line starts there fails.
pub proof fn lemma_terminator_strict(s: Seq<char>, i: int, k: int)
    requires
        0 <= i <= k < s.len(),
        is_line_break(s[k]),
        break_free(s, i, k),
        !(s[k] == '\r' && k + 1 < s.len() && s[k + 1] == '\n'),
    ensures
        line_at(s, i) is None,
{
    assert forall|j: int| !is_line_at(s, i, j) by {
        if is_line_at(s, i, j) {
            if j < k {
                assert(!is_line_break(s[j]));
            } else if j > k {
                assert(!is_line_break(s[k]));
            }
        }
    }
}

/// A tagged value whose first line holds a bare CR or LF fails, whatever
/// the tag; no single-LF or lone-CR terminator is tolerated.
pub proof fn lemma_tagged_value_strict(s: Seq<char>, i: int, nested: bool, k: int)
    requires
        0 <= i < s.len(),
        is_type_tag(s[i]),
        i + 1 <= k < s.len(),
        is_line_break(s[k]),
        break_free(s, i + 1, k),
        !(s[k] == '\r' && k + 1 < s.len() && s[k + 1] == '\n'),
    ensures
        spec_value(s, i, nested) is None,
{
    lemma_terminator_strict(s, i + 1, k);
}

/// Any leading character that is not a recognized type tag makes the
/// whole input an inline command: its whitespace-separated tokens, or a
/// failure when there are none.
pub proof fn lemma_inline_fallback(s: Seq<char>)
    requires
        s.len() > 0,
        !is_type_tag(s[0]),
    ensures
        tokens_of(s).len() == 0 ==> spec_parse(s) is None,
        tokens_of(s).len() > 0 ==> spec_parse(s) == Some(SpecValue::Inline(tokens_of(s))),
{
}

/// An empty input decodes to nothing.
pub proof fn lemma_empty_input(s: Seq<char>)
    requires
        s.len() == 0,
    ensures
        spec_parse(s) is None,
{
}

} // verus!

