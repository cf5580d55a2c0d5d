//! The AG-UI endpoint's HTTP framing.

use vstd::prelude::*;

use crate::text::{chars_of, find_char, has_char, lower_chars, lower_seq, same_text, slice_chars, string_of, trim_chars, trimmed, words};

verus! {

/// A request read off the socket.
pub struct HttpRequest {
    pub method: String,
    pub path: String,
    pub body: Vec<u8>,
}

/// The blank line `\r\n\r\n` that ends the headers starts at `i` of `buf`.
pub open spec fn header_end_at(buf: Seq<u8>, i: int) -> bool {
    &&& 0 <= i
    &&& i + 4 <= buf.len()
    &&& buf[i] == 13 && buf[i + 1] == 10 && buf[i + 2] == 13 && buf[i + 3] == 10
}

/// Position of the first `\r\n\r\n` in `buf`.
pub fn find_header_end(buf: &[u8]) -> (r: Option<usize>)
    ensures
        match r {
            Some(i) => header_end_at(buf@, i as int) && forall|j: int| 0 <= j < i ==> !#[trigger] header_end_at(buf@, j),
            None => forall|j: int| !#[trigger] header_end_at(buf@, j),
        },
{
    let mut i: usize = 0;
    while i < buf.len() && buf.len() - i >= 4
        invariant
            i <= buf@.len(),
            forall|j: int| 0 <= j < i ==> !#[trigger] header_end_at(buf@, j),
        decreases buf@.len() - i,
    {
        if buf[i] == 13 && buf[i + 1] == 10 && buf[i + 2] == 13 && buf[i + 3] == 10 {
            return Some(i);
        }
        i = i + 1;
    }
    proof {
        assert forall|j: int| !#[trigger] header_end_at(buf@, j) by {
            if 0 <= j && j >= i {
                assert(!(j + 4 <= buf@.len()));
            }
        }
    }
    None
}

/// The header name that gives a message's body length, lower-cased with its colon.
pub open spec fn content_length_name() -> Seq<char> {
    "content-length:"@
}

/// The value of a `Content-Length` header line: the line is lower-cased (ASCII);
/// when it then starts with `content-length:`, the rest, trimmed of white space.
pub open spec fn content_length_value(line: Seq<char>) -> Option<Seq<char>> {
    let low = lower_seq(line);
    if low.len() >= 15 && low.take(15) == content_length_name() {
        Some(trimmed(low.skip(15)))
    } else {
        None
    }
}

/// The value text of `line` when it is a `Content-Length` header line (see
/// `content_length_value`); `None` for any other line.
pub fn content_length_text(line: &str) -> (r: Option<String>)
    ensures
        match r {
            Some(v) => content_length_value(line@) == Some(v@),
            None => content_length_value(line@) is None,
        },
{
    proof {
        reveal_strlit("content-length:");
    }
    let low = lower_chars(&chars_of(line));
    let name = chars_of("content-length:");
    assert(name@.len() == 15);
    assert(low@ == lower_seq(line@));
    assert(low@.len() == line@.len());
    if low.len() < 15 {
        return None;
    }
    let mut i: usize = 0;
    while i < 15
        invariant
            i <= 15,
            low@.len() >= 15,
            name@.len() == 15,
            low@ == lower_seq(line@),
            name@ == content_length_name(),
            forall|j: int| 0 <= j < i ==> low@[j] == name@[j],
        decreases 15 - i,
    {
        if low[i] != name[i] {
            proof {
                assert(low@.take(15)[i as int] != content_length_name()[i as int]);
                assert(low@.take(15) != content_length_name());
            }
            return None;
        }
        i = i + 1;
    }
    assert(low@.take(15) =~= content_length_name());
    let rest = slice_chars(&low, 15, low.len());
    let t = trim_chars(&rest);
    Some(string_of(t.as_slice()))
}

/// The value of a decimal digit character.
pub open spec fn digit_value(c: char) -> nat {
    ((c as int) - 48) as nat
}

/// The number the digits `s` write.
pub open spec fn digits_value(s: Seq<char>) -> nat
    decreases s.len(),
{
    if s.len() == 0 {
        0
    } else {
        digits_value(s.drop_last()) * 10 + digit_value(s.last())
    }
}

/// Whether `s` is one or more decimal digits.
pub open spec fn all_digits(s: Seq<char>) -> bool {
    s.len() > 0 && forall|i: int| 0 <= i < s.len() ==> '0' <= #[trigger] s[i] && s[i] <= '9'
}

/// The digits of a decimal number as `str::parse::<usize>` reads them: the text
/// after an optional leading `+`.
pub open spec fn unsigned_digits(s: Seq<char>) -> Seq<char> {
    if s.len() > 0 && s[0] == '+' {
        s.skip(1)
    } else {
        s
    }
}

/// `s` read as a decimal `usize`, as `str::parse::<usize>` reads it: an optional
/// `+`, then one or more digits, the value fitting in a `usize`; `None` otherwise.
pub fn parse_decimal(s: &str) -> (r: Option<usize>)
    ensures
        match r {
            Some(v) => all_digits(unsigned_digits(s@)) && v == digits_value(unsigned_digits(s@)),
            None => !all_digits(unsigned_digits(s@)) || digits_value(unsigned_digits(s@)) > usize::MAX,
        },
{
    let cs = chars_of(s);
    let start: usize = if cs.len() > 0 && cs[0] == '+' {
        1
    } else {
        0
    };
    let ghost d = unsigned_digits(s@);
    assert(d =~= cs@.skip(start as int));
    if cs.len() <= start {
        return None;
    }
    let mut v: usize = 0;
    let mut i: usize = start;
    while i < cs.len()
        invariant
            start <= i <= cs@.len(),
            d == cs@.skip(start as int),
            d == unsigned_digits(s@),
            forall|j: int| start <= j < i ==> '0' <= #[trigger] cs@[j] && cs@[j] <= '9',
            v == digits_value(cs@.subrange(start as int, i as int)),
        decreases cs@.len() - i,
    {
        let c = cs[i];
        if !('0' <= c && c <= '9') {
            proof {
                assert(d[i - start] == c);
                assert(!all_digits(d));
            }
            return None;
        }
        proof {
            assert(cs@.subrange(start as int, i + 1).drop_last() =~= cs@.subrange(start as int, i as int));
        }
        let digit: u32 = c as u32 - 48;
        match v.checked_mul(10) {
            Some(m) => match m.checked_add(digit as usize) {
                Some(n) => {
                    v = n;
                },
                None => {
                    proof {
                        lemma_digits_grow(d, (i - start) as int);
                        assert(cs@.subrange(start as int, i + 1) =~= d.take(i - start + 1));
                        assert(cs@.subrange(start as int, i + 1).last() == c);
                        assert(digits_value(d.take(i - start + 1)) == v * 10 + digit_value(c));
                    }
                    return None;
                },
            },
            None => {
                proof {
                    lemma_digits_grow(d, (i - start) as int);
                    assert(cs@.subrange(start as int, i + 1) =~= d.take(i - start + 1));
                    assert(cs@.subrange(start as int, i + 1).last() == c);
                    assert(digits_value(d.take(i - start + 1)) == v * 10 + digit_value(c));
                }
                return None;
            },
        }
        i = i + 1;
    }
    assert(cs@.subrange(start as int, cs@.len() as int) =~= d);
    Some(v)
}

/// A prefix of digits writes a number no larger than the whole does.
proof fn lemma_digits_grow(d: Seq<char>, k: int)
    requires
        0 <= k < d.len(),
        forall|i: int| 0 <= i <= k ==> '0' <= #[trigger] d[i] && d[i] <= '9',
    ensures
        all_digits(d) ==> digits_value(d.take(k + 1)) <= digits_value(d),
{
    if all_digits(d) {
        lemma_prefix_le(d, k + 1, d.len() as int);
        assert(d.take(d.len() as int) =~= d);
    }
}

proof fn lemma_prefix_le(d: Seq<char>, a: int, b: int)
    requires
        0 <= a <= b <= d.len(),
        all_digits(d),
    ensures
        digits_value(d.take(a)) <= digits_value(d.take(b)),
    decreases b - a,
{
    if a < b {
        lemma_prefix_le(d, a, b - 1);
        assert(d.take(b).drop_last() =~= d.take(b - 1));
        assert('0' <= d[b - 1]);
    }
}

/// The method and target of an HTTP request line: its first two words. No word is
/// `missing method`; one word is `missing path`.
pub fn request_line_parts(line: &str) -> (r: Result<(String, String), String>)
    ensures
        words(line@).len() == 0 ==> (r matches Err(m) && m@ == "missing method"@),
        words(line@).len() == 1 ==> (r matches Err(m) && m@ == "missing path"@),
        words(line@).len() >= 2 ==> (r matches Ok((method, target)) && method@ == words(line@)[0] && target@
            == words(line@)[1]),
{
    let ws = crate::text::split_white(line);
    if ws.len() == 0 {
        return Err(crate::text::owned("missing method"));
    }
    if ws.len() == 1 {
        return Err(crate::text::owned("missing path"));
    }
    Ok((ws[0].clone(), ws[1].clone()))
}

/// The path of a request target without its query: the text before the first `?`.
pub open spec fn path_part(target: Seq<char>) -> Seq<char> {
    if has_char(target, '?') {
        target.take(choose|i: int| 0 <= i < target.len() && target[i] == '?' && !has_char(target.take(i), '?'))
    } else {
        target
    }
}

/// The path of request target `target` (see `path_part`).
pub fn request_path(target: &str) -> (r: String)
    ensures
        r@ == path_part(target@),
{
    let cs = chars_of(target);
    match find_char(&cs, '?') {
        Some(i) => {
            proof {
                let k = choose|k: int| 0 <= k < cs@.len() && cs@[k] == '?' && !has_char(cs@.take(k), '?');
                if k < i {
                    assert(cs@.take(i as int)[k] == '?');
                } else if k > i {
                    assert(cs@.take(k)[i as int] == '?');
                }
                assert(k == i);
            }
            let head = slice_chars(&cs, 0, i);
            assert(head@ =~= cs@.take(i as int));
            string_of(head.as_slice())
        },
        None => string_of(cs.as_slice()),
    }
}

/// Where the AG-UI endpoint sends a request.
#[derive(Debug, Clone, Copy, PartialEq, Eq, Structural)]
pub enum AguiRoute {
    Health,
    Agent,
    NotFound,
}

/// The AG-UI route of `method` and request target `target`: `GET /health`, a
/// run on `POST /agent` or `POST /`, else not found.
pub fn agui_route(method: &str, target: &str) -> (r: AguiRoute)
    ensures
        r == if method@ == "GET"@ && path_part(target@) == "/health"@ {
            AguiRoute::Health
        } else if method@ == "POST"@ && (path_part(target@) == "/agent"@ || path_part(target@) == "/"@) {
            AguiRoute::Agent
        } else {
            AguiRoute::NotFound
        },
{
    let path = request_path(target);
    if same_text(method, "GET") && same_text(path.as_str(), "/health") {
        AguiRoute::Health
    } else if same_text(method, "POST") && (same_text(path.as_str(), "/agent") || same_text(path.as_str(), "/")) {
        AguiRoute::Agent
    } else {
        AguiRoute::NotFound
    }
}

/// Where the A2A endpoint sends a request.
#[derive(Debug, Clone, Copy, PartialEq, Eq, Structural)]
pub enum A2aRoute {
    Health,
    Card,
    Rpc,
    NotFound,
}

/// The A2A route of `method` and request target `target`: `GET /health`, the agent
/// card on `GET /.well-known/agent-card.json` or `GET /.well-known/agent.json`,
/// JSON-RPC on `POST /`, `POST /rpc` or `POST /a2a`, else not found.
pub fn a2a_route(method: &str, target: &str) -> (r: A2aRoute)
    ensures
        r == {
            let p = path_part(target@);
            if method@ == "GET"@ && p == "/health"@ {
                A2aRoute::Health
            } else if method@ == "GET"@ && (p == "/.well-known/agent-card.json"@ || p == "/.well-known/agent.json"@) {
                A2aRoute::Card
            } else if method@ == "POST"@ && (p == "/"@ || p == "/rpc"@ || p == "/a2a"@) {
                A2aRoute::Rpc
            } else {
                A2aRoute::NotFound
            }
        },
{
    let path = request_path(target);
    let p = path.as_str();
    if same_text(method, "GET") && same_text(p, "/health") {
        A2aRoute::Health
    } else if same_text(method, "GET") && (same_text(p, "/.well-known/agent-card.json") || same_text(
        p,
        "/.well-known/agent.json",
    )) {
        A2aRoute::Card
    } else if same_text(method, "POST") && (same_text(p, "/") || same_text(p, "/rpc") || same_text(p, "/a2a")) {
        A2aRoute::Rpc
    } else {
        A2aRoute::NotFound
    }
}

} // verus!
