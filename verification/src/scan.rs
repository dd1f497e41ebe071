//! Scanning over the input text: CR-LF-terminated lines and the
//! whitespace tokenization of the legacy inline form.

use vstd::prelude::*;

use crate::lex::{
    break_free, char_is_white_space, is_line_at, lemma_line_at_unique, lemma_token_end, line_at,
    token_end, tokens_from, white_space,
};
use crate::value::{lemma_strings_view_push, strings_view};

verus! {

/// The CR-LF-terminated line that starts at `from`: its content and the
/// position just past the terminator, or `None` when the input ends
/// first or a bare CR or LF appears.
#[verifier::loop_isolation(false)]
pub fn read_line<'a>(input: &'a str, from: usize) -> (r: Option<(&'a str, usize)>)
    requires
        from <= input@.len(),
    ensures
        match r {
            Some((line, end)) => line_at(input@, from as int) == Some((line@, end as int))
                && from + 2 <= end <= input@.len(),
            None => line_at(input@, from as int) is None,
        },
{
    let n = input.unicode_len();
    let mut k = from;
    while k < n
        invariant
            from <= k <= n,
            break_free(input@, from as int, k as int),
        decreases n - k,
    {
        let c = input.get_char(k);
        if c == '\r' {
            if k + 1 < n && input.get_char(k + 1) == '\n' {
                proof {
                    assert(is_line_at(input@, from as int, k as int));
                    let j = choose|j: int| is_line_at(input@, from as int, j);
                    lemma_line_at_unique(input@, from as int, j, k as int);
                }
                let line = input.substring_char(from, k);
                return Some((line, k + 2));
            } else {
                proof {
                    assert forall|j: int| !is_line_at(input@, from as int, j) by {
                        if is_line_at(input@, from as int, j) {
                            if j < k {
                                assert(input@[j] == '\r');
                            } else if j > k {
                                assert(input@[k as int] == '\r');
                            }
                        }
                    }
                }
                return None;
            }
        } else if c == '\n' {
            proof {
                assert forall|j: int| !is_line_at(input@, from as int, j) by {
                    if is_line_at(input@, from as int, j) {
                        if j < k {
                            assert(input@[j] == '\r');
                        } else {
                            assert(input@[k as int] == '\n');
                        }
                    }
                }
            }
            return None;
        }
        k = k + 1;
    }
    proof {
        assert forall|j: int| !is_line_at(input@, from as int, j) by {
            if is_line_at(input@, from as int, j) {
                assert(input@[j] == '\r');
            }
        }
    }
    None
}

/// `e` is where the token that starts at `k` ends: the first white-space
/// position at or after `k`, or the end of the text.
proof fn lemma_token_end_unique(s: Seq<char>, k: int, e: int)
    requires
        0 <= k <= e <= s.len(),
        forall|m: int| k <= m < e ==> !white_space(#[trigger] s[m]),
        e < s.len() ==> white_space(s[e]),
    ensures
        token_end(s, k) == e,
{
    lemma_token_end(s, k);
    let t = token_end(s, k);
    if t < e {
        assert(!white_space(s[t]));
    }
    if e < t {
        assert(!white_space(s[e]));
    }
}

/// The white-space-separated tokens of `input[from..]`, in order.
#[verifier::loop_isolation(false)]
pub fn tokenize(input: &str, from: usize) -> (ts: Vec<String>)
    requires
        from <= input@.len(),
    ensures
        strings_view(ts@) == tokens_from(input@, from as int),
{
    let n = input.unicode_len();
    let mut ts: Vec<String> = Vec::new();
    let mut k = from;
    proof {
        assert(strings_view(ts@) + tokens_from(input@, k as int) =~= tokens_from(
            input@,
            from as int,
        ));
    }
    while k < n
        invariant
            from <= k <= n,
            strings_view(ts@) + tokens_from(input@, k as int) == tokens_from(input@, from as int),
        decreases n - k,
    {
        let c = input.get_char(k);
        if char_is_white_space(c) {
            k = k + 1;
        } else {
            let mut e = k + 1;
            loop
                invariant
                    k < e <= n,
                    forall|m: int| k <= m < e ==> !white_space(#[trigger] input@[m]),
                decreases n - e,
            {
                if e >= n {
                    break;
                }
                if char_is_white_space(input.get_char(e)) {
                    break;
                }
                e = e + 1;
            }
            proof {
                lemma_token_end_unique(input@, k as int, e as int);
            }
            let tok = input.substring_char(k, e).to_owned();
            let ghost pre = ts@;
            ts.push(tok);
            proof {
                lemma_strings_view_push(pre, ts@.last());
                assert(strings_view(ts@) + tokens_from(input@, e as int) =~= strings_view(pre)
                    + tokens_from(input@, k as int));
            }
            k = e;
        }
    }
    proof {
        assert(strings_view(ts@) + tokens_from(input@, k as int) =~= strings_view(ts@));
    }
    ts
}

} // verus!
