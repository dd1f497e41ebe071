//! The wire grammar, as a specification-level recursive-descent parser
//! over a sequence of characters.
//!
//! [`spec_value`] reads one value starting at a given position and gives
//! back the value and the position just past it, or `None` when the text
//! is rejected.  The executable decoder is proved to agree with these
//! functions on every input.

use vstd::prelude::*;

use crate::lex::{big_number_of_text, i64_of_text, is_double_text, line_at, tokens_from};
use crate::value::SpecValue;

verus! {

/// The characters that introduce a typed value; any other first
/// character makes the whole remaining input an inline command.
pub open spec fn is_type_tag(c: char) -> bool {
    ||| c == '+'
    ||| c == '-'
    ||| c == ':'
    ||| c == '$'
    ||| c == '*'
    ||| c == '_'
    ||| c == '#'
    ||| c == ','
    ||| c == '('
    ||| c == '!'
    ||| c == '='
    ||| c == '%'
    ||| c == '~'
    ||| c == '>'
}

/// The position a sub-parse hands back, kept inside `(i, len]` so that
/// the recursion's measure visibly shrinks.  A successful sub-parse
/// always lands there ([`lemma_value_advances`]), so the guard never
/// actually binds.
pub open spec fn next_pos(i: int, j: int, len: int) -> int {
    if i < j && j <= len {
        j
    } else {
        i + 1
    }
}

/// One value read from `s` at position `i`, and the position just past
/// it.  `nested` says the read happens inside an aggregate, where a
/// push value is not allowed.
pub open spec fn spec_value(s: Seq<char>, i: int, nested: bool) -> Option<(SpecValue, int)>
    decreases s.len() - i, 0int, 0int,
{
    if i < 0 || i >= s.len() {
        None
    } else {
        let c = s[i];
        if !is_type_tag(c) {
            let toks = tokens_from(s, i);
            if toks.len() == 0 {
                None
            } else {
                Some((SpecValue::Inline(toks), s.len() as int))
            }
        } else {
            match line_at(s, i + 1) {
                None => None,
                Some((line, after)) => {
                    if c == '+' {
                        Some((SpecValue::SimpleString(line), after))
                    } else if c == '-' {
                        Some((SpecValue::SimpleError(line), after))
                    } else if c == ':' {
                        match i64_of_text(line) {
                            Some(v) => Some((SpecValue::Integer(v), after)),
                            None => None,
                        }
                    } else if c == '_' {
                        if line.len() == 0 {
                            Some((SpecValue::Null, after))
                        } else {
                            None
                        }
                    } else if c == '#' {
                        if line.len() == 1 && line[0] == 't' {
                            Some((SpecValue::Boolean(true), after))
                        } else if line.len() == 1 && line[0] == 'f' {
                            Some((SpecValue::Boolean(false), after))
                        } else {
                            None
                        }
                    } else if c == ',' {
                        if is_double_text(line) {
                            Some((SpecValue::Double(line), after))
                        } else {
                            None
                        }
                    } else if c == '(' {
                        match big_number_of_text(line) {
                            Some(t) => Some((SpecValue::BigNumber(t), after)),
                            None => None,
                        }
                    } else if c == '$' {
                        match i64_of_text(line) {
                            None => None,
                            Some(n) => if n == -1 {
                                Some((SpecValue::NullBulkString, after))
                            } else if n < -1 {
                                None
                            } else {
                                match line_at(s, after) {
                                    None => None,
                                    Some((payload, end)) => if payload.len() == n {
                                        Some((SpecValue::BulkString(payload), end))
                                    } else {
                                        None
                                    },
                                }
                            },
                        }
                    } else if c == '!' {
                        match i64_of_text(line) {
                            None => None,
                            Some(n) => if n < 0 {
                                None
                            } else {
                                match line_at(s, after) {
                                    None => None,
                                    Some((payload, end)) => if payload.len() == n {
                                        Some((SpecValue::BulkError(payload), end))
                                    } else {
                                        None
                                    },
                                }
                            },
                        }
                    } else if c == '=' {
                        match i64_of_text(line) {
                            None => None,
                            Some(n) => if n < 4 {
                                None
                            } else {
                                match line_at(s, after) {
                                    None => None,
                                    Some((payload, end)) => if payload.len() == n
                                        && payload[3] == ':'
                                        && payload[0] != ':'
                                        && payload[1] != ':'
                                        && payload[2] != ':' {
                                        Some((
                                            SpecValue::VerbatimString {
                                                encoding: payload.subrange(0, 3),
                                                data: payload.subrange(4, payload.len() as int),
                                            },
                                            end,
                                        ))
                                    } else {
                                        None
                                    },
                                }
                            },
                        }
                    } else if c == '*' {
                        match i64_of_text(line) {
                            None => None,
                            Some(n) => if n == -1 {
                                Some((SpecValue::NullArray, after))
                            } else if n < -1 {
                                None
                            } else {
                                match spec_elements(s, after, n as nat) {
                                    None => None,
                                    Some((vs, end)) => Some((SpecValue::Array(vs), end)),
                                }
                            },
                        }
                    } else if c == '~' {
                        match i64_of_text(line) {
                            None => None,
                            Some(n) => if n < 0 {
                                None
                            } else {
                                match spec_elements(s, after, n as nat) {
                                    None => None,
                                    Some((vs, end)) => Some((SpecValue::SetValue(vs), end)),
                                }
                            },
                        }
                    } else if c == '>' {
                        match i64_of_text(line) {
                            None => None,
                            Some(n) => if n < 0 || nested {
                                None
                            } else {
                                match spec_elements(s, after, n as nat) {
                                    None => None,
                                    Some((vs, end)) => Some((SpecValue::Push(vs), end)),
                                }
                            },
                        }
                    } else {
                        match i64_of_text(line) {
                            None => None,
                            Some(n) => if n < 0 {
                                None
                            } else {
                                match spec_pairs(s, after, n as nat) {
                                    None => None,
                                    Some((ps, end)) => Some((SpecValue::MapValue(ps), end)),
                                }
                            },
                        }
                    }
                },
            }
        }
    }
}

/// `n` values read one after the other from `s` at position `i`, each
/// with the push form forbidden, and the position just past the last.
pub open spec fn spec_elements(s: Seq<char>, i: int, n: nat) -> Option<(Seq<SpecValue>, int)>
    decreases s.len() - i, 1int, n,
{
    if n == 0 {
        Some((Seq::empty(), i))
    } else if i < 0 || i >= s.len() {
        // out of range: the value read below would be refused anyway
        None
    } else {
        match spec_value(s, i, true) {
            None => None,
            Some((v, j)) => match spec_elements(
                s,
                next_pos(i, j, s.len() as int),
                (n - 1) as nat,
            ) {
                None => None,
                Some((vs, end)) => Some((seq![v] + vs, end)),
            },
        }
    }
}

/// `n` key/value pairs read one after the other from `s` at position
/// `i`, keys and values alike with the push form forbidden, and the
/// position just past the last.
pub open spec fn spec_pairs(s: Seq<char>, i: int, n: nat) -> Option<
    (Seq<(SpecValue, SpecValue)>, int),
>
    decreases s.len() - i, 1int, n,
{
    if n == 0 {
        Some((Seq::empty(), i))
    } else if i < 0 || i >= s.len() {
        // out of range: the key read below would be refused anyway
        None
    } else {
        match spec_value(s, i, true) {
            None => None,
            Some((k, j)) => {
                let jk = next_pos(i, j, s.len() as int);
                if jk >= s.len() {
                    // out of range: the value read below would be refused anyway
                    None
                } else {
                    match spec_value(s, jk, true) {
                        None => None,
                        Some((v, j2)) => {
                            let jv = next_pos(jk, j2, s.len() as int);
                            match spec_pairs(s, jv, (n - 1) as nat) {
                                None => None,
                                Some((ps, end)) => Some((seq![(k, v)] + ps, end)),
                            }
                        },
                    }
                }
            },
        }
    }
}

/// The one decoded value of a whole frame: the first value read at the
/// top level (where a push is allowed); text past that value is ignored.
pub open spec fn spec_parse(s: Seq<char>) -> Option<SpecValue> {
    match spec_value(s, 0, false) {
        Some((v, _)) => Some(v),
        None => None,
    }
}

/// A successful read always moves forward and stays inside the text.
pub proof fn lemma_value_advances(s: Seq<char>, i: int, nested: bool)
    ensures
        spec_value(s, i, nested) matches Some((v, j)) ==> i < j <= s.len(),
    decreases s.len() - i, 0int, 0int,
{
    if spec_value(s, i, nested) is Some && 0 <= i < s.len() && is_type_tag(s[i]) {
        match line_at(s, i + 1) {
            None => {},
            Some((line, after)) => {
                let c = s[i];
                if c == '*' || c == '~' || c == '>' || c == '%' {
                    match i64_of_text(line) {
                        Some(n) => if n >= 0 {
                            lemma_elements_advance(s, after, n as nat);
                            lemma_pairs_advance(s, after, n as nat);
                        },
                        None => {},
                    }
                }
            },
        }
    }
}

/// Reading a run of values never moves backwards and stays inside the text.
pub proof fn lemma_elements_advance(s: Seq<char>, i: int, n: nat)
    requires
        0 <= i <= s.len(),
    ensures
        spec_elements(s, i, n) matches Some((vs, end)) ==> i <= end <= s.len() && vs.len() == n,
    decreases s.len() - i, 1int, n,
{
    if n > 0 {
        match spec_value(s, i, true) {
            None => {},
            Some((v, j)) => {
                lemma_value_advances(s, i, true);
                lemma_elements_advance(s, next_pos(i, j, s.len() as int), (n - 1) as nat);
            },
        }
    }
}

/// Reading a run of pairs never moves backwards and stays inside the text.
pub proof fn lemma_pairs_advance(s: Seq<char>, i: int, n: nat)
    requires
        0 <= i <= s.len(),
    ensures
        spec_pairs(s, i, n) matches Some((ps, end)) ==> i <= end <= s.len() && ps.len() == n,
    decreases s.len() - i, 1int, n,
{
    if n > 0 {
        match spec_value(s, i, true) {
            None => {},
            Some((k, j)) => {
                lemma_value_advances(s, i, true);
                let jk = next_pos(i, j, s.len() as int);
                match spec_value(s, jk, true) {
                    None => {},
                    Some((v, j2)) => {
                        lemma_value_advances(s, jk, true);
                        lemma_pairs_advance(s, next_pos(jk, j2, s.len() as int), (n - 1) as nat);
                    },
                }
            },
        }
    }
}

} // verus!
