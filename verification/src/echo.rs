//! The echo WASI Cell: one envelope line in, one reply line out. It reads the
//! request's `correlationId` and `capability` as raw JSON tokens, without a parser.

use vstd::prelude::*;

use crate::text::{chars_of, has_char, join5, lead_white, slice_chars, string_of, trim_chars, trim_start_chars, trimmed};

verus! {

/// `s[i]` is the first `c` in `s`.
pub open spec fn is_first(s: Seq<char>, c: char, i: int) -> bool {
    0 <= i < s.len() && s[i] == c && !has_char(s.take(i), c)
}

/// Position of the first `c` in `s`, when there is one.
#[verifier::opaque]
pub open spec fn first_of(s: Seq<char>, c: char) -> Option<int> {
    if has_char(s, c) {
        Some(choose|i: int| #[trigger] is_first(s, c, i))
    } else {
        None
    }
}

/// `pat` stands at position `i` of `s`.
pub open spec fn occurs_at(s: Seq<char>, pat: Seq<char>, i: int) -> bool {
    0 <= i && i + pat.len() <= s.len() && s.subrange(i, i + pat.len()) == pat
}

/// Position of the first `pat` in `s`, when there is one.
#[verifier::opaque]
pub open spec fn first_occurrence(s: Seq<char>, pat: Seq<char>) -> Option<int> {
    if exists|i: int| #[trigger] occurs_at(s, pat, i) {
        Some(choose|i: int| #[trigger] occurs_at(s, pat, i) && forall|j: int| 0 <= j < i ==> !#[trigger] occurs_at(s, pat, j))
    } else {
        None
    }
}

/// `s[k]` ends an unquoted value: a `,` or a `}`.
pub open spec fn stop_at(s: Seq<char>, k: int) -> bool {
    0 <= k < s.len() && (s[k] == ',' || s[k] == '}')
}

/// Length of the unquoted value at the start of `s`: up to its first `,` or `}`.
#[verifier::opaque]
pub open spec fn value_len(s: Seq<char>) -> int {
    if exists|k: int| #[trigger] stop_at(s, k) {
        choose|k: int| #[trigger] stop_at(s, k) && forall|j: int| 0 <= j < k ==> !#[trigger] stop_at(s, j)
    } else {
        s.len() as int
    }
}

/// The quoted key `"key"`.
pub open spec fn key_pattern(key: Seq<char>) -> Seq<char> {
    seq!['"'] + key + seq!['"']
}

/// The raw token at the start of `r`: a string with its quotes (up to the next
/// quote), or else the text up to the next `,` or `}`, trimmed.
pub open spec fn token_of(r: Seq<char>) -> Option<Seq<char>> {
    if r.len() > 0 && r[0] == '"' {
        match first_of(r.skip(1), '"') {
            None => None,
            Some(e) => Some(r.take(e + 2)),
        }
    } else {
        Some(trimmed(r.take(value_len(r))))
    }
}

/// The raw token after the first `:` of `rest`, leading white space skipped.
pub open spec fn token_after_colon(rest: Seq<char>) -> Option<Seq<char>> {
    match first_of(rest, ':') {
        None => None,
        Some(c) => {
            let after = rest.skip(c + 1);
            token_of(after.skip(lead_white(after) as int))
        },
    }
}

/// The raw JSON token of member `key` in `s`: the token after the first `"key"` of
/// `s` and the `:` that follows it.
pub open spec fn raw_value(s: Seq<char>, key: Seq<char>) -> Option<Seq<char>> {
    match first_occurrence(s, key_pattern(key)) {
        None => None,
        Some(i) => token_after_colon(s.skip(i + key_pattern(key).len())),
    }
}

proof fn lemma_first_of(s: Seq<char>, c: char, i: int)
    requires
        0 <= i < s.len(),
        s[i] == c,
        !has_char(s.take(i), c),
    ensures
        first_of(s, c) == Some(i),
{
    reveal(first_of);
    assert(has_char(s, c));
    assert(is_first(s, c, i));
    let k = choose|k: int| #[trigger] is_first(s, c, k);
    if k < i {
        assert(s.take(i)[k] == c);
        assert(has_char(s.take(i), c));
    } else if k > i {
        assert(s.take(k)[i] == c);
        assert(has_char(s.take(k), c));
    }
    assert(k == i);
}

/// Position of the first `c` in `s`.
fn find_first(s: &Vec<char>, c: char) -> (r: Option<usize>)
    ensures
        match r {
            Some(i) => first_of(s@, c) == Some(i as int) && i < s@.len() && s@[i as int] == c,
            None => first_of(s@, c) is None,
        },
{
    match crate::text::find_char(s, c) {
        Some(i) => {
            proof {
                lemma_first_of(s@, c, i as int);
            }
            Some(i)
        },
        None => {
            proof {
                reveal(first_of);
            }
            None
        },
    }
}

/// Whether `pat` stands at position `i` of `s`.
fn occurs(s: &Vec<char>, pat: &Vec<char>, i: usize) -> (r: bool)
    requires
        i + pat@.len() <= s@.len(),
    ensures
        r == occurs_at(s@, pat@, i as int),
{
    let sl = s.len();
    let mut k: usize = 0;
    while k < pat.len()
        invariant
            sl == s@.len(),
            i + pat@.len() <= s@.len(),
            k <= pat@.len(),
            forall|j: int| 0 <= j < k ==> s@[i + j] == pat@[j],
        decreases pat@.len() - k,
    {
        if s[i + k] != pat[k] {
            assert(s@.subrange(i as int, i + pat@.len())[k as int] != pat@[k as int]);
            return false;
        }
        k = k + 1;
    }
    assert(s@.subrange(i as int, i + pat@.len()) =~= pat@);
    true
}

/// Position of the first `pat` in `s`.
fn find_text(s: &Vec<char>, pat: &Vec<char>) -> (r: Option<usize>)
    ensures
        match r {
            Some(i) => first_occurrence(s@, pat@) == Some(i as int) && occurs_at(s@, pat@, i as int),
            None => first_occurrence(s@, pat@) is None,
        },
{
    reveal(first_occurrence);
    if pat.len() > s.len() {
        assert forall|j: int| !#[trigger] occurs_at(s@, pat@, j) by {}
        return None;
    }
    let last = s.len() - pat.len();
    let mut i: usize = 0;
    loop
        invariant
            last == s@.len() - pat@.len(),
            i <= last,
            forall|j: int| 0 <= j < i ==> !#[trigger] occurs_at(s@, pat@, j),
        ensures
            forall|j: int| 0 <= j <= last ==> !#[trigger] occurs_at(s@, pat@, j),
        decreases last - i,
    {
        if occurs(s, pat, i) {
            proof {
                reveal(first_occurrence);
                let f = choose|j: int| #[trigger] occurs_at(s@, pat@, j) && forall|k: int|
                    0 <= k < j ==> !#[trigger] occurs_at(s@, pat@, k);
                assert(occurs_at(s@, pat@, i as int) && forall|k: int|
                    0 <= k < i ==> !#[trigger] occurs_at(s@, pat@, k));
                if f < i {
                } else if f > i {
                    assert(!occurs_at(s@, pat@, i as int));
                }
            }
            return Some(i);
        }
        if i == last {
            break;
        }
        i = i + 1;
    }
    assert forall|j: int| !#[trigger] occurs_at(s@, pat@, j) by {
        if 0 <= j && j > last {
            assert(!(j + pat@.len() <= s@.len()));
        }
    }
    None
}

/// Length of the unquoted value at the start of `s`.
fn find_value_len(s: &Vec<char>) -> (r: usize)
    ensures
        r as int == value_len(s@),
        r <= s@.len(),
{
    let mut k: usize = 0;
    while k < s.len()
        invariant
            k <= s@.len(),
            forall|j: int| 0 <= j < k ==> !#[trigger] stop_at(s@, j),
        decreases s@.len() - k,
    {
        reveal(value_len);
        if s[k] == ',' || s[k] == '}' {
            proof {
                assert(stop_at(s@, k as int));
                let f = choose|j: int| #[trigger] stop_at(s@, j) && forall|m: int| 0 <= m < j ==> !#[trigger] stop_at(s@, m);
                if f < k {
                } else if f > k {
                    assert(!stop_at(s@, k as int));
                }
            }
            return k;
        }
        k = k + 1;
    }
    assert forall|j: int| !#[trigger] stop_at(s@, j) by {}
    reveal(value_len);
    k
}

/// The raw token at the start of `r` (see `token_of`).
fn token(r: &Vec<char>) -> (t: Option<Vec<char>>)
    ensures
        match t {
            Some(v) => token_of(r@) == Some(v@),
            None => token_of(r@) is None,
        },
{
    if r.len() > 0 && r[0] == '"' {
        let tail = slice_chars(r, 1, r.len());
        assert(tail@ =~= r@.skip(1));
        match find_first(&tail, '"') {
            Some(e) => {
                let out = slice_chars(r, 0, e + 2);
                assert(out@ =~= r@.take(e + 2));
                Some(out)
            },
            None => None,
        }
    } else {
        let n = find_value_len(r);
        let head = slice_chars(r, 0, n);
        assert(head@ =~= r@.take(n as int));
        Some(trim_chars(&head))
    }
}

/// The raw token after the first `:` of `rest` (see `token_after_colon`).
fn token_after(rest: &Vec<char>) -> (t: Option<Vec<char>>)
    ensures
        match t {
            Some(v) => token_after_colon(rest@) == Some(v@),
            None => token_after_colon(rest@) is None,
        },
{
    let c = match find_first(rest, ':') {
        Some(c) => c,
        None => {
            return None;
        },
    };
    let rl = rest.len();
    assert(c < rl);
    let after = slice_chars(rest, c + 1, rl);
    assert(after@ =~= rest@.skip(c + 1));
    let r = trim_start_chars(&after);
    token(&r)
}

/// The raw JSON token of member `key` in the envelope text `s` (see `raw_value`).
pub fn json_str(s: &str, key: &str) -> (r: Option<String>)
    ensures
        match r {
            Some(v) => raw_value(s@, key@) == Some(v@),
            None => raw_value(s@, key@) is None,
        },
{
    let text = chars_of(s);
    let mut pat: Vec<char> = Vec::new();
    pat.push('"');
    let mut kc = chars_of(key);
    pat.append(&mut kc);
    pat.push('"');
    assert(pat@ =~= key_pattern(key@));
    let i = match find_text(&text, &pat) {
        Some(i) => i,
        None => {
            return None;
        },
    };
    let tl = text.len();
    assert(i + pat@.len() <= tl);
    let from = i + pat.len();
    let rest = slice_chars(&text, from, tl);
    assert(rest@ =~= text@.skip(from as int));
    match token_after(&rest) {
        Some(v) => Some(string_of(v.as_slice())),
        None => None,
    }
}

/// The echo Cell's reply to the envelope text `input`: the request's correlation id
/// and capability tokens (`"missing"` and `"echo-wasi"` when absent) in a reply
/// envelope whose payload says it ran under WASI.
pub fn echo_reply(input: &str) -> (r: String)
    ensures
        r@ == "{\"schema\":\"kcell.envelope.v1\",\"correlationId\":"@ + match raw_value(input@, "correlationId"@) {
            Some(v) => v,
            None => "\"missing\""@,
        } + ",\"capability\":"@ + match raw_value(input@, "capability"@) {
            Some(v) => v,
            None => "\"echo-wasi\""@,
        } + ",\"payload\":{\"runtime\":\"wasi\",\"ok\":true}}\n"@,
{
    let id = match json_str(input, "correlationId") {
        Some(v) => v,
        None => "\"missing\"".to_string(),
    };
    let cap = match json_str(input, "capability") {
        Some(v) => v,
        None => "\"echo-wasi\"".to_string(),
    };
    join5(
        "{\"schema\":\"kcell.envelope.v1\",\"correlationId\":",
        id.as_str(),
        ",\"capability\":",
        cap.as_str(),
        ",\"payload\":{\"runtime\":\"wasi\",\"ok\":true}}\n",
    )
}

} // verus!
