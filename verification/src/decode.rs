//! The executable decoder, proved to agree with the specification-level
//! parser in [`crate::grammar`] on every input.

use vstd::prelude::*;

use crate::double::double_lexeme;
use crate::grammar::{is_type_tag, next_pos, spec_elements, spec_pairs, spec_parse, spec_value};
use crate::number::{parse_big_number, parse_i64};
use crate::scan::{read_line, tokenize};
use crate::value::{
    lemma_aggregate_deep_view, lemma_inline_deep_view, lemma_map_deep_view,
    lemma_pairs_deep_view_push, lemma_seq_deep_view_push, pairs_deep_view, seq_deep_view, RESP,
    SpecValue,
};

verus! {

/// Whether `c` introduces a typed value.
fn type_tag_char(c: char) -> (r: bool)
    ensures
        r == is_type_tag(c),
{
    c == '+' || c == '-' || c == ':' || c == '$' || c == '*' || c == '_' || c == '#' || c == ','
        || c == '(' || c == '!' || c == '=' || c == '%' || c == '~' || c == '>'
}

impl RESP {
    /// One value decoded from `input` at position `pos`, and the
    /// position just past it; `nested` forbids the push form.
    fn parse_value(input: &str, pos: usize, nested: bool) -> (r: Option<(RESP, usize)>)
        requires
            pos <= input@.len(),
        ensures
            match r {
                Some((v, end)) => spec_value(input@, pos as int, nested) == Some(
                    (v.deep_view(), end as int),
                ) && pos < end <= input@.len(),
                None => spec_value(input@, pos as int, nested) is None,
            },
        decreases input@.len() - pos, 0int, 0int,
    {
        let n = input.unicode_len();
        if pos >= n {
            return None;
        }
        let c = input.get_char(pos);
        if !type_tag_char(c) {
            let toks = tokenize(input, pos);
            proof {
                lemma_inline_deep_view(toks);
            }
            if toks.len() == 0 {
                return None;
            }
            return Some((RESP::Inline(toks), n));
        }
        let (line, after) = match read_line(input, pos + 1) {
            None => {
                return None;
            },
            Some(x) => x,
        };
        if c == '+' {
            Some((RESP::SimpleString(line.to_owned()), after))
        } else if c == '-' {
            Some((RESP::SimpleError(line.to_owned()), after))
        } else if c == ':' {
            match parse_i64(line) {
                Some(v) => Some((RESP::Integer(v), after)),
                None => None,
            }
        } else if c == '_' {
            if line.unicode_len() == 0 {
                Some((RESP::Null, after))
            } else {
                None
            }
        } else if c == '#' {
            if line.unicode_len() == 1 && line.get_char(0) == 't' {
                Some((RESP::Boolean(true), after))
            } else if line.unicode_len() == 1 && line.get_char(0) == 'f' {
                Some((RESP::Boolean(false), after))
            } else {
                None
            }
        } else if c == ',' {
            if double_lexeme(line) {
                Some((RESP::Double(line.to_owned()), after))
            } else {
                None
            }
        } else if c == '(' {
            match parse_big_number(line) {
                Some(t) => Some((RESP::BigNumber(t), after)),
                None => None,
            }
        } else if c == '$' {
            let len = match parse_i64(line) {
                None => {
                    return None;
                },
                Some(x) => x,
            };
            if len == -1 {
                return Some((RESP::NullBulkString, after));
            }
            if len < -1 {
                return None;
            }
            match read_line(input, after) {
                None => None,
                Some((payload, end)) => {
                    if payload.unicode_len() as u64 == len as u64 {
                        Some((RESP::BulkString(payload.to_owned()), end))
                    } else {
                        None
                    }
                },
            }
        } else if c == '!' {
            let len = match parse_i64(line) {
                None => {
                    return None;
                },
                Some(x) => x,
            };
            if len < 0 {
                return None;
            }
            match read_line(input, after) {
                None => None,
                Some((payload, end)) => {
                    if payload.unicode_len() as u64 == len as u64 {
                        Some((RESP::BulkError(payload.to_owned()), end))
                    } else {
                        None
                    }
                },
            }
        } else if c == '=' {
            let len = match parse_i64(line) {
                None => {
                    return None;
                },
                Some(x) => x,
            };
            if len < 4 {
                return None;
            }
            match read_line(input, after) {
                None => None,
                Some((payload, end)) => {
                    let plen = payload.unicode_len();
                    if plen as u64 == len as u64 && payload.get_char(3) == ':' && payload.get_char(
                        0,
                    ) != ':' && payload.get_char(1) != ':' && payload.get_char(2) != ':' {
                        let encoding = payload.substring_char(0, 3).to_owned();
                        let data = payload.substring_char(4, plen).to_owned();
                        Some((RESP::VerbatimString { encoding, data }, end))
                    } else {
                        None
                    }
                },
            }
        } else if c == '*' {
            let len = match parse_i64(line) {
                None => {
                    return None;
                },
                Some(x) => x,
            };
            if len == -1 {
                return Some((RESP::NullArray, after));
            }
            if len < -1 {
                return None;
            }
            match Self::parse_elements(input, after, len as u64) {
                None => None,
                Some((vs, end)) => {
                    proof {
                        lemma_aggregate_deep_view(vs);
                    }
                    Some((RESP::Array(vs), end))
                },
            }
        } else if c == '~' {
            let len = match parse_i64(line) {
                None => {
                    return None;
                },
                Some(x) => x,
            };
            if len < 0 {
                return None;
            }
            match Self::parse_elements(input, after, len as u64) {
                None => None,
                Some((vs, end)) => {
                    proof {
                        lemma_aggregate_deep_view(vs);
                    }
                    Some((RESP::SetValue(vs), end))
                },
            }
        } else if c == '>' {
            let len = match parse_i64(line) {
                None => {
                    return None;
                },
                Some(x) => x,
            };
            if len < 0 || nested {
                return None;
            }
            match Self::parse_elements(input, after, len as u64) {
                None => None,
                Some((vs, end)) => {
                    proof {
                        lemma_aggregate_deep_view(vs);
                    }
                    Some((RESP::Push(vs), end))
                },
            }
        } else {
            let len = match parse_i64(line) {
                None => {
                    return None;
                },
                Some(x) => x,
            };
            if len < 0 {
                return None;
            }
            match Self::parse_pairs(input, after, len as u64) {
                None => None,
                Some((ps, end)) => {
                    proof {
                        lemma_map_deep_view(ps);
                    }
                    Some((RESP::MapValue(ps), end))
                },
            }
        }
    }

    /// `count` values decoded one after the other, the push form
    /// forbidden in each.
    #[verifier::loop_isolation(false)]
    fn parse_elements(input: &str, pos: usize, count: u64) -> (r: Option<(Vec<RESP>, usize)>)
        requires
            pos <= input@.len(),
        ensures
            match r {
                Some((vs, end)) => spec_elements(input@, pos as int, count as nat) == Some(
                    (seq_deep_view(vs@), end as int),
                ) && pos <= end <= input@.len(),
                None => spec_elements(input@, pos as int, count as nat) is None,
            },
        decreases input@.len() - pos, 1int, count,
    {
        let mut out: Vec<RESP> = Vec::new();
        let mut cur = pos;
        let mut k: u64 = 0;
        proof {
            match spec_elements(input@, pos as int, count as nat) {
                Some((vs, e)) => {
                    assert(seq_deep_view(out@) + vs =~= vs);
                },
                None => {},
            }
        }
        while k < count
            invariant
                pos <= cur <= input@.len(),
                k <= count,
                match spec_elements(input@, cur as int, (count - k) as nat) {
                    Some((vs, e)) => spec_elements(input@, pos as int, count as nat) == Some(
                        (seq_deep_view(out@) + vs, e),
                    ),
                    None => spec_elements(input@, pos as int, count as nat) is None,
                },
            decreases count - k,
        {
            match Self::parse_value(input, cur, true) {
                None => {
                    return None;
                },
                Some((v, end)) => {
                    proof {
                        assert(next_pos(cur as int, end as int, input@.len() as int)
                            == end as int);
                    }
                    let ghost pre = out@;
                    let ghost dv = v.deep_view();
                    out.push(v);
                    proof {
                        lemma_seq_deep_view_push(pre, out@.last());
                        match spec_elements(input@, end as int, (count - k - 1) as nat) {
                            Some((vs2, e2)) => {
                                assert(seq_deep_view(pre) + (seq![dv] + vs2) =~= seq_deep_view(
                                    out@,
                                ) + vs2);
                            },
                            None => {},
                        }
                    }
                    cur = end;
                    k = k + 1;
                },
            }
        }
        proof {
            match spec_elements(input@, pos as int, count as nat) {
                Some((vs, e)) => {
                    assert(seq_deep_view(out@) + Seq::<SpecValue>::empty() =~= seq_deep_view(
                        out@,
                    ));
                },
                None => {},
            }
        }
        Some((out, cur))
    }

    /// `count` key/value pairs decoded one after the other, the push
    /// form forbidden in keys and values alike.
    #[verifier::loop_isolation(false)]
    fn parse_pairs(input: &str, pos: usize, count: u64) -> (r: Option<(Vec<(RESP, RESP)>, usize)>)
        requires
            pos <= input@.len(),
        ensures
            match r {
                Some((ps, end)) => spec_pairs(input@, pos as int, count as nat) == Some(
                    (pairs_deep_view(ps@), end as int),
                ) && pos <= end <= input@.len(),
                None => spec_pairs(input@, pos as int, count as nat) is None,
            },
        decreases input@.len() - pos, 1int, count,
    {
        let mut out: Vec<(RESP, RESP)> = Vec::new();
        let mut cur = pos;
        let mut k: u64 = 0;
        proof {
            match spec_pairs(input@, pos as int, count as nat) {
                Some((ps, e)) => {
                    assert(pairs_deep_view(out@) + ps =~= ps);
                },
                None => {},
            }
        }
        while k < count
            invariant
                pos <= cur <= input@.len(),
                k <= count,
                match spec_pairs(input@, cur as int, (count - k) as nat) {
                    Some((ps, e)) => spec_pairs(input@, pos as int, count as nat) == Some(
                        (pairs_deep_view(out@) + ps, e),
                    ),
                    None => spec_pairs(input@, pos as int, count as nat) is None,
                },
            decreases count - k,
        {
            let key = match Self::parse_value(input, cur, true) {
                None => {
                    return None;
                },
                Some(x) => x,
            };
            proof {
                assert(next_pos(cur as int, key.1 as int, input@.len() as int) == key.1 as int);
            }
            let val = match Self::parse_value(input, key.1, true) {
                None => {
                    return None;
                },
                Some(x) => x,
            };
            proof {
                assert(next_pos(key.1 as int, val.1 as int, input@.len() as int)
                    == val.1 as int);
            }
            let end = val.1;
            let ghost pre = out@;
            let ghost dk = key.0.deep_view();
            let ghost dv = val.0.deep_view();
            out.push((key.0, val.0));
            proof {
                lemma_pairs_deep_view_push(pre, out@.last().0, out@.last().1);
                match spec_pairs(input@, end as int, (count - k - 1) as nat) {
                    Some((ps2, e2)) => {
                        assert(pairs_deep_view(pre) + (seq![(dk, dv)] + ps2) =~= pairs_deep_view(
                            out@,
                        ) + ps2);
                    },
                    None => {},
                }
            }
            cur = end;
            k = k + 1;
        }
        proof {
            match spec_pairs(input@, pos as int, count as nat) {
                Some((ps, e)) => {
                    assert(pairs_deep_view(out@) + Seq::<(SpecValue, SpecValue)>::empty()
                        =~= pairs_deep_view(out@));
                },
                None => {},
            }
        }
        Some((out, cur))
    }

    /// One value decoded from a whole frame of text, or `None` when the
    /// text is rejected; text past the first complete value is ignored.
    pub fn parse(data: &str) -> (r: Option<RESP>)
        ensures
            match r {
                Some(v) => spec_parse(data@) == Some(v.deep_view()),
                None => spec_parse(data@) is None,
            },
    {
        match Self::parse_value(data, 0, false) {
            Some((v, _)) => Some(v),
            None => None,
        }
    }
}

} // verus!
