//! `cell.yaml`: the Cell manifest and its validation rules.

use vstd::prelude::*;

use crate::error::{is_validation, Error, Result};
use crate::text::{chars_of, find_char, has_char, join3, slice_chars};

verus! {

/// A Cell manifest (`apiVersion: kcell.dev/v1`, `kind: Cell`).
#[derive(Debug, Clone)]
pub struct CellManifest {
    pub api_version: String,
    pub kind: String,
    pub metadata: CellMetadata,
    pub spec: CellSpec,
}

/// Name, version and description of a Cell.
#[derive(Debug, Clone)]
pub struct CellMetadata {
    pub name: String,
    pub version: String,
    pub description: Option<String>,
}

/// What a Cell runs as, provides, requires and is allowed to do.
#[derive(Debug, Clone)]
pub struct CellSpec {
    pub runtime: RuntimeSpec,
    pub provides: Vec<Capability>,
    pub requires: Vec<Requirement>,
    pub communication: Communication,
    pub ports: Vec<Port>,
    pub resources: Resources,
    pub permissions: Permissions,
    pub health: Health,
    pub restart_policy: RestartPolicy,
}

/// The restart policy a manifest gets when it names none.
pub fn default_restart_policy() -> (r: RestartPolicy)
    ensures
        r == RestartPolicy::OnFailure,
{
    RestartPolicy::OnFailure
}

/// How a Cell is executed.
#[derive(Debug, Clone)]
pub struct RuntimeSpec {
    pub kind: RuntimeKind,
    pub entrypoint: Option<String>,
    pub artifact: Option<String>,
}

/// The three runtimes a Host can execute.
#[derive(Debug, Clone, Copy, PartialEq, Eq, Structural)]
pub enum RuntimeKind {
    Wasi,
    Subprocess,
    Inprocess,
}

/// A capability a Cell provides.
#[derive(Debug, Clone)]
pub struct Capability {
    pub name: String,
    pub version: String,
    pub contract: Option<String>,
}

/// A capability a Cell needs from another Cell.
#[derive(Debug, Clone)]
pub struct Requirement {
    pub name: String,
    pub version: String,
    pub optional: bool,
    pub contract: Option<String>,
}

/// Whether a Cell initiates calls (active) and/or answers them (passive).
#[derive(Debug, Clone, Copy, PartialEq, Eq, Structural)]
pub struct Communication {
    pub active: bool,
    pub passive: bool,
}

/// A named message port.
#[derive(Debug, Clone)]
pub struct Port {
    pub name: String,
    pub direction: PortDirection,
    pub message: String,
}

/// Direction of a port.
#[derive(Debug, Clone, Copy, PartialEq, Eq, Structural)]
pub enum PortDirection {
    In,
    Out,
    Inout,
}

/// Resource limits; every limit is optional.
#[derive(Debug, Clone, Copy, PartialEq, Eq, Structural)]
pub struct Resources {
    pub memory_mb: Option<u32>,
    pub cpu_millis: Option<u32>,
    pub timeout_ms: Option<u64>,
    pub concurrency: Option<u32>,
}

impl Default for Resources {
    fn default() -> (r: Self)
        ensures
            r.memory_mb is None,
            r.cpu_millis is None,
            r.timeout_ms is None,
            r.concurrency is None,
    {
        Resources { memory_mb: None, cpu_millis: None, timeout_ms: None, concurrency: None }
    }
}

/// Permissions a Cell asks for; the policy gate must grant each.
#[derive(Debug, Clone)]
pub struct Permissions {
    pub network: Vec<String>,
    pub filesystem: Vec<FsGrant>,
    pub process: Vec<String>,
    pub secrets: Vec<String>,
    pub peers: Vec<String>,
}

impl Default for Permissions {
    fn default() -> (r: Self)
        ensures
            r.network@.len() == 0,
            r.filesystem@.len() == 0,
            r.process@.len() == 0,
            r.secrets@.len() == 0,
            r.peers@.len() == 0,
    {
        Permissions {
            network: Vec::new(),
            filesystem: Vec::new(),
            process: Vec::new(),
            secrets: Vec::new(),
            peers: Vec::new(),
        }
    }
}

/// Access to a path.
#[derive(Debug, Clone)]
pub struct FsGrant {
    pub path: String,
    pub mode: FsMode,
}

/// Read-only or read-write.
#[derive(Debug, Clone, Copy, PartialEq, Eq, Structural)]
pub enum FsMode {
    Ro,
    Rw,
}

/// Health-check timing.
#[derive(Debug, Clone, Copy, PartialEq, Eq, Structural)]
pub struct Health {
    pub readiness_timeout_ms: u64,
    pub liveness_interval_ms: u64,
}

/// Readiness timeout a manifest gets when it names none.
pub fn default_readiness() -> (r: u64)
    ensures
        r == 5000,
{
    5_000
}

/// Liveness interval a manifest gets when it names none.
pub fn default_liveness() -> (r: u64)
    ensures
        r == 5000,
{
    5_000
}

impl Default for Health {
    fn default() -> (r: Self)
        ensures
            r.readiness_timeout_ms == 5000,
            r.liveness_interval_ms == 5000,
    {
        Health { readiness_timeout_ms: default_readiness(), liveness_interval_ms: default_liveness() }
    }
}

/// When a stopped Cell is restarted.
#[derive(Debug, Clone, Copy, PartialEq, Eq, Structural)]
pub enum RestartPolicy {
    Never,
    OnFailure,
    Always,
}

/// The API version every manifest must carry.
pub open spec fn api_v1() -> Seq<char> {
    seq!['k', 'c', 'e', 'l', 'l', '.', 'd', 'e', 'v', '/', 'v', '1']
}

/// Whether `s` is `kcell.dev/v1`.
pub fn is_api_v1(s: &str) -> (r: bool)
    ensures
        r == (s@ == api_v1()),
{
    let v = chars_of(s);
    let r = v.len() == 12 && v[0] == 'k' && v[1] == 'c' && v[2] == 'e' && v[3] == 'l' && v[4]
        == 'l' && v[5] == '.' && v[6] == 'd' && v[7] == 'e' && v[8] == 'v' && v[9] == '/' && v[10]
        == 'v' && v[11] == '1';
    assert(r ==> v@ =~= api_v1());
    r
}

/// ASCII lower-case letter.
pub open spec fn is_lower(c: char) -> bool {
    'a' <= c && c <= 'z'
}

/// ASCII decimal digit.
pub open spec fn is_digit(c: char) -> bool {
    '0' <= c && c <= '9'
}

/// A DNS-label-like Cell name: at most 63 characters, a lower-case letter first, then
/// lower-case letters, digits and `-`. The empty name passes.
pub open spec fn name_ok(s: Seq<char>) -> bool {
    &&& s.len() <= 63
    &&& forall|i: int|
        0 <= i < s.len() ==> if i == 0 {
            is_lower(#[trigger] s[i])
        } else {
            is_lower(s[i]) || is_digit(s[i]) || s[i] == '-'
        }
}

/// Position of the first `-` or `+` in `s`, or its length.
pub open spec fn pre_release_at(s: Seq<char>) -> int
    decreases s.len(),
{
    if s.len() == 0 {
        0
    } else if s[0] == '-' || s[0] == '+' {
        0
    } else {
        1 + pre_release_at(s.drop_first())
    }
}

/// The version core: `s` up to the first `-` or `+`.
pub open spec fn version_core(s: Seq<char>) -> Seq<char> {
    s.take(pre_release_at(s))
}

/// Position of the first `c` in `s`, or its length.
pub open spec fn index_of(s: Seq<char>, c: char) -> int
    decreases s.len(),
{
    if s.len() == 0 {
        0
    } else if s[0] == c {
        0
    } else {
        1 + index_of(s.drop_first(), c)
    }
}

/// `s` split at every `.` (`str::split('.')`).
pub open spec fn split_dots(s: Seq<char>) -> Seq<Seq<char>>
    decreases s.len(),
{
    if !has_char(s, '.') {
        seq![s]
    } else {
        let i = index_of(s, '.');
        proof {
            lemma_index_of(s, '.');
        }
        seq![s.take(i)] + split_dots(s.skip(i + 1))
    }
}

/// Value of a string of decimal digits.
pub open spec fn digits_value(s: Seq<char>) -> nat
    decreases s.len(),
{
    if s.len() == 0 {
        0
    } else {
        digits_value(s.drop_last()) * 10 + ((s.last() as int - '0' as int) as nat)
    }
}

/// What `str::parse::<u64>` accepts when no `+` can occur: a non-empty run of digits
/// whose value fits in a `u64`.
pub open spec fn u64_text(s: Seq<char>) -> bool {
    &&& s.len() > 0
    &&& forall|i: int| 0 <= i < s.len() ==> is_digit(#[trigger] s[i])
    &&& digits_value(s) <= u64::MAX
}

/// A semantic version: its core has exactly three dot-separated numbers.
pub open spec fn semver_ok(v: Seq<char>) -> bool {
    let parts = split_dots(version_core(v));
    parts.len() == 3 && forall|i: int| 0 <= i < 3 ==> u64_text(#[trigger] parts[i])
}

/// A provided capability without name or version.
pub open spec fn cap_blank(c: Capability) -> bool {
    c.name@.len() == 0 || c.version@.len() == 0
}

/// A requirement without name or version.
pub open spec fn req_blank(r: Requirement) -> bool {
    r.name@.len() == 0 || r.version@.len() == 0
}

/// The first rule a Cell manifest breaks, as its validation message; `None` when valid.
pub open spec fn cell_problem(c: CellManifest) -> Option<Seq<char>> {
    if c.api_version@ != api_v1() {
        Some("unsupported apiVersion: "@ + c.api_version@)
    } else if c.kind@ != "Cell"@ {
        Some("expected kind Cell, got "@ + c.kind@)
    } else if !name_ok(c.metadata.name@) {
        Some("invalid name `"@ + c.metadata.name@ + "` (expect lowercase dns-label)"@)
    } else if !semver_ok(c.metadata.version@) {
        Some("invalid semver `"@ + c.metadata.version@ + "`"@)
    } else if !c.spec.communication.active && !c.spec.communication.passive {
        Some("communication must enable active and/or passive"@)
    } else if c.spec.provides@.len() == 0 && c.spec.requires@.len() == 0 {
        Some("cell must provide or require at least one capability"@)
    } else if exists|i: int| 0 <= i < c.spec.provides@.len() && cap_blank(#[trigger] c.spec.provides@[i]) {
        Some("provide capability name/version required"@)
    } else if exists|i: int| 0 <= i < c.spec.requires@.len() && req_blank(#[trigger] c.spec.requires@[i]) {
        Some("require capability name/version required"@)
    } else {
        None
    }
}

/// Checks the name rule; the error names the offending name.
pub fn validate_name(name: &str) -> (r: Result<()>)
    ensures
        r is Ok <==> name_ok(name@),
        r matches Err(e) ==> is_validation(
            e,
            "invalid name `"@ + name@ + "` (expect lowercase dns-label)"@,
        ),
        name@.len() <= 63 && (name@.len() > 0 ==> 'a' <= name@[0] && name@[0] <= 'z') && (forall|i: int|
            1 <= i < name@.len() ==> ('a' <= #[trigger] name@[i] && name@[i] <= 'z') || ('0' <= name@[i] && name@[i]
                <= '9') || name@[i] == '-') ==> r is Ok,
        name@.len() > 63 ==> r is Err,
        name@.len() > 0 && !('a' <= name@[0] && name@[0] <= 'z') ==> r is Err,
        (exists|i: int|
            0 <= i < name@.len() && !(('a' <= #[trigger] name@[i] && name@[i] <= 'z') || ('0' <= name@[i] && name@[i]
                <= '9') || name@[i] == '-')) ==> r is Err,
{
    proof {
        dns_label_names_accepted(name@);
    }
    let v = chars_of(name);
    let mut ok = v.len() <= 63;
    let mut i: usize = 0;
    while ok && i < v.len()
        invariant
            v@ == name@,
            i <= v@.len(),
            ok ==> v@.len() <= 63,
            ok ==> forall|j: int|
                0 <= j < i ==> if j == 0 {
                    is_lower(#[trigger] v@[j])
                } else {
                    is_lower(v@[j]) || is_digit(v@[j]) || v@[j] == '-'
                },
            !ok ==> !name_ok(name@),
        decreases v@.len() - i,
    {
        let c = v[i];
        let good = if i == 0 {
            'a' <= c && c <= 'z'
        } else {
            ('a' <= c && c <= 'z') || ('0' <= c && c <= '9') || c == '-'
        };
        if !good {
            ok = false;
        }
        i = i + 1;
    }
    if ok {
        Ok(())
    } else {
        Err(Error::Validation(join3("invalid name `", name, "` (expect lowercase dns-label)")))
    }
}

/// What name validation accepts, in terms of the characters: a name of at most 63
/// characters that starts with a lower-case ASCII letter and goes on with lower-case
/// ASCII letters, ASCII digits or `-` is accepted (the empty name too); a longer name,
/// one starting otherwise, or one holding any other character is refused.
pub proof fn dns_label_names_accepted(s: Seq<char>)
    ensures
        s.len() <= 63 && (s.len() > 0 ==> 'a' <= s[0] && s[0] <= 'z') && (forall|i: int|
            1 <= i < s.len() ==> ('a' <= #[trigger] s[i] && s[i] <= 'z') || ('0' <= s[i] && s[i] <= '9') || s[i]
                == '-') ==> name_ok(s),
        s.len() > 63 ==> !name_ok(s),
        s.len() > 0 && !('a' <= s[0] && s[0] <= 'z') ==> !name_ok(s),
        (exists|i: int|
            0 <= i < s.len() && !(('a' <= #[trigger] s[i] && s[i] <= 'z') || ('0' <= s[i] && s[i] <= '9') || s[i]
                == '-')) ==> !name_ok(s),
{
    if exists|i: int|
        0 <= i < s.len() && !(('a' <= #[trigger] s[i] && s[i] <= 'z') || ('0' <= s[i] && s[i] <= '9') || s[i] == '-') {
        let i = choose|i: int|
            0 <= i < s.len() && !(('a' <= #[trigger] s[i] && s[i] <= 'z') || ('0' <= s[i] && s[i] <= '9') || s[i]
                == '-');
        assert(!(if i == 0 {
            is_lower(s[i])
        } else {
            is_lower(s[i]) || is_digit(s[i]) || s[i] == '-'
        }));
    }
    if s.len() > 0 && !('a' <= s[0] && s[0] <= 'z') {
        assert(!is_lower(s[0]));
    }
}

/// Appending a digit or a letter to an accepted name shorter than 63 characters and
/// not empty gives an accepted name.
pub proof fn accepted_name_extends(s: Seq<char>, c: char)
    requires
        name_ok(s),
        0 < s.len() < 63,
        ('a' <= c && c <= 'z') || ('0' <= c && c <= '9') || c == '-',
    ensures
        name_ok(s.push(c)),
{
    dns_label_names_accepted(s.push(c));
    assert forall|i: int| 1 <= i < s.push(c).len() implies ('a' <= #[trigger] s.push(c)[i] && s.push(c)[i] <= 'z') || (
    '0' <= s.push(c)[i] && s.push(c)[i] <= '9') || s.push(c)[i] == '-' by {
        if i < s.len() {
            assert(s.push(c)[i] == s[i]);
            assert(is_lower(s[i]) || is_digit(s[i]) || s[i] == '-');
        }
    }
    assert(is_lower(s[0]));
}

pub proof fn lemma_index_of(s: Seq<char>, c: char)
    ensures
        0 <= index_of(s, c) <= s.len(),
        forall|j: int| 0 <= j < index_of(s, c) ==> s[j] != c,
        index_of(s, c) < s.len() ==> s[index_of(s, c)] == c,
        has_char(s, c) <==> index_of(s, c) < s.len(),
    decreases s.len(),
{
    if s.len() > 0 {
        lemma_index_of(s.drop_first(), c);
        assert forall|j: int| 0 <= j < index_of(s, c) implies s[j] != c by {
            if j > 0 {
                assert(s[j] == s.drop_first()[j - 1]);
            }
        }
        if has_char(s, c) && s[0] != c {
            let k = choose|k: int| 0 <= k < s.len() && s[k] == c;
            assert(s.drop_first()[k - 1] == c);
        }
        if has_char(s.drop_first(), c) {
            let k = choose|k: int| 0 <= k < s.drop_first().len() && s.drop_first()[k] == c;
            assert(s[k + 1] == c);
        }
    }
}

proof fn lemma_pre_release_at(s: Seq<char>)
    ensures
        0 <= pre_release_at(s) <= s.len(),
        forall|j: int| 0 <= j < pre_release_at(s) ==> s[j] != '-' && s[j] != '+',
        pre_release_at(s) < s.len() ==> (s[pre_release_at(s)] == '-' || s[pre_release_at(s)]
            == '+'),
    decreases s.len(),
{
    if s.len() > 0 {
        lemma_pre_release_at(s.drop_first());
        assert forall|j: int| 0 <= j < pre_release_at(s) implies s[j] != '-' && s[j] != '+' by {
            if j > 0 {
                assert(s[j] == s.drop_first()[j - 1]);
            }
        }
    }
}

proof fn lemma_digits_step(s: Seq<char>, c: char)
    requires
        is_digit(c),
    ensures
        digits_value(s.push(c)) == digits_value(s) * 10 + ((c as int - '0' as int) as nat),
{
    assert(s.push(c).drop_last() =~= s);
}

proof fn lemma_digits_mono(s: Seq<char>, t: Seq<char>)
    requires
        forall|i: int| 0 <= i < t.len() ==> is_digit(#[trigger] t[i]),
    ensures
        digits_value(s + t) >= digits_value(s),
    decreases t.len(),
{
    if t.len() > 0 {
        let u = t.drop_last();
        assert forall|i: int| 0 <= i < u.len() implies is_digit(#[trigger] u[i]) by {
            assert(u[i] == t[i]);
        }
        lemma_digits_mono(s, u);
        assert((s + t).drop_last() =~= s + u);
        assert(is_digit(t.last()));
    }
}

/// Whether `p` is accepted by `str::parse::<u64>` (no `+` in `p`).
fn parse_u64_ok(p: &Vec<char>) -> (r: bool)
    ensures
        r == u64_text(p@),
{
    if p.len() == 0 {
        return false;
    }
    let mut acc: u64 = 0;
    let mut i: usize = 0;
    while i < p.len()
        invariant
            i <= p@.len(),
            p@.len() > 0,
            forall|j: int| 0 <= j < i ==> is_digit(#[trigger] p@[j]),
            acc == digits_value(p@.take(i as int)),
        decreases p@.len() - i,
    {
        let c = p[i];
        if !('0' <= c && c <= '9') {
            return false;
        }
        let d: u64 = (c as u32 - '0' as u32) as u64;
        proof {
            assert(p@.take(i + 1) =~= p@.take(i as int).push(c));
            lemma_digits_step(p@.take(i as int), c);
        }
        if acc > (u64::MAX - d) / 10 {
            proof {
                assert(digits_value(p@.take(i + 1)) > u64::MAX) by (nonlinear_arith)
                    requires
                        digits_value(p@.take(i + 1)) == acc * 10 + d,
                        acc > (u64::MAX - d) / 10,
                        d <= 9,
                ;
                let rest = p@.skip(i + 1);
                assert(p@ =~= p@.take(i + 1) + rest);
                if forall|j: int| 0 <= j < rest.len() ==> is_digit(#[trigger] rest[j]) {
                    lemma_digits_mono(p@.take(i + 1), rest);
                }
                if u64_text(p@) {
                    assert forall|j: int| 0 <= j < rest.len() implies is_digit(#[trigger] rest[j]) by {
                        assert(rest[j] == p@[j + i + 1]);
                    }
                    lemma_digits_mono(p@.take(i + 1), rest);
                }
            }
            return false;
        }
        proof {
            assert(acc * 10 + d <= u64::MAX) by (nonlinear_arith)
                requires
                    acc <= (u64::MAX - d) / 10,
                    d <= 9,
            ;
        }
        acc = acc * 10 + d;
        i = i + 1;
    }
    assert(p@.take(p@.len() as int) =~= p@);
    true
}

/// Checks the semantic-version rule; the error names the offending version.
pub fn validate_semver(v: &str) -> (r: Result<()>)
    ensures
        r is Ok <==> semver_ok(v@),
        r matches Err(e) ==> is_validation(e, "invalid semver `"@ + v@ + "`"@),
{
    let all = chars_of(v);
    // the core ends at the first '-' or '+'
    let mut end: usize = 0;
    proof {
        lemma_pre_release_at(all@);
    }
    while end < all.len() && all[end] != '-' && all[end] != '+'
        invariant
            end <= all@.len(),
            all@ == v@,
            forall|j: int| 0 <= j < end ==> all@[j] != '-' && all@[j] != '+',
        decreases all@.len() - end,
    {
        end = end + 1;
    }
    proof {
        lemma_pre_release_at_is(all@, end as int);
    }
    let core = slice_chars(&all, 0, end);
    assert(core@ =~= version_core(v@));
    // split the core at every '.'
    let mut parts: Vec<Vec<char>> = Vec::new();
    let mut rest = core;
    let mut done = false;
    while !done
        invariant
            !done ==> parts@.map_values(|p: Vec<char>| p@) + split_dots(rest@) == split_dots(
                version_core(v@),
            ),
            done ==> parts@.map_values(|p: Vec<char>| p@) == split_dots(version_core(v@)),
        decreases rest@.len() + (if done { 0int } else { 1int }),
    {
        let ghost before = parts@.map_values(|p: Vec<char>| p@);
        match find_char(&rest, '.') {
            None => {
                proof {
                    lemma_index_of(rest@, '.');
                }
                let ghost r = rest@;
                parts.push(rest);
                rest = Vec::new();
                done = true;
                assert(parts@.map_values(|p: Vec<char>| p@) =~= before + seq![r]);
            },
            Some(i) => {
                proof {
                    lemma_index_of(rest@, '.');
                    assert(has_char(rest@, '.'));
                    assert forall|j: int| 0 <= j < i implies rest@[j] != '.' by {
                        if rest@[j] == '.' {
                            assert(rest@.take(i as int)[j] == '.');
                        }
                    }
                    lemma_index_of_is(rest@, '.', i as int);
                }
                assert(i < rest.len());
                let head = slice_chars(&rest, 0, i);
                let tail = slice_chars(&rest, i + 1, rest.len());
                let ghost r = rest@;
                assert(head@ =~= r.take(i as int));
                assert(tail@ =~= r.skip(i + 1));
                parts.push(head);
                rest = tail;
                assert(parts@.map_values(|p: Vec<char>| p@) =~= before + seq![r.take(i as int)]);
                assert(split_dots(r) == seq![r.take(i as int)] + split_dots(r.skip(i + 1)));
                assert(before + split_dots(r) =~= parts@.map_values(|p: Vec<char>| p@)
                    + split_dots(rest@));
            },
        }
    }
    let ghost ps = parts@.map_values(|p: Vec<char>| p@);
    let mut ok = parts.len() == 3;
    if ok {
        let a = parse_u64_ok(&parts[0]);
        let b = parse_u64_ok(&parts[1]);
        let c = parse_u64_ok(&parts[2]);
        assert(ps[0] == parts@[0]@ && ps[1] == parts@[1]@ && ps[2] == parts@[2]@);
        ok = a && b && c;
        assert(ok ==> forall|k: int| 0 <= k < 3 ==> u64_text(#[trigger] ps[k])) by {
            assert forall|k: int| 0 <= k < 3 && ok implies u64_text(#[trigger] ps[k]) by {
                if k == 0 {
                } else if k == 1 {
                } else {
                }
            }
        }
    }
    if ok {
        Ok(())
    } else {
        Err(Error::Validation(join3("invalid semver `", v, "`")))
    }
}

proof fn lemma_pre_release_at_is(s: Seq<char>, k: int)
    requires
        0 <= k <= s.len(),
        forall|j: int| 0 <= j < k ==> s[j] != '-' && s[j] != '+',
        k == s.len() || s[k] == '-' || s[k] == '+',
    ensures
        pre_release_at(s) == k,
    decreases k,
{
    if k > 0 {
        assert forall|j: int| 0 <= j < k - 1 implies s.drop_first()[j] != '-'
            && s.drop_first()[j] != '+' by {
            assert(s.drop_first()[j] == s[j + 1]);
        }
        if k < s.len() {
            assert(s.drop_first()[k - 1] == s[k]);
        }
        lemma_pre_release_at_is(s.drop_first(), k - 1);
    }
}

proof fn lemma_index_of_is(s: Seq<char>, c: char, k: int)
    requires
        0 <= k < s.len(),
        forall|j: int| 0 <= j < k ==> s[j] != c,
        s[k] == c,
    ensures
        index_of(s, c) == k,
    decreases k,
{
    if k > 0 {
        assert forall|j: int| 0 <= j < k - 1 implies s.drop_first()[j] != c by {
            assert(s.drop_first()[j] == s[j + 1]);
        }
        assert(s.drop_first()[k - 1] == s[k]);
        lemma_index_of_is(s.drop_first(), c, k - 1);
    }
}

/// Checks a Cell manifest: API version, kind, name, version, communication and the
/// provided / required capabilities. The first broken rule is reported.
#[verifier::loop_isolation(false)]
pub fn validate_cell(cell: &CellManifest) -> (r: Result<()>)
    ensures
        r is Ok <==> cell_problem(*cell) is None,
        r matches Err(e) ==> is_validation(e, cell_problem(*cell)->0),
{
    if !is_api_v1(cell.api_version.as_str()) {
        return Err(
            Error::Validation(crate::text::join2("unsupported apiVersion: ", cell.api_version.as_str())),
        );
    }
    if !crate::text::same_text(cell.kind.as_str(), "Cell") {
        return Err(
            Error::Validation(crate::text::join2("expected kind Cell, got ", cell.kind.as_str())),
        );
    }
    validate_name(cell.metadata.name.as_str())?;
    validate_semver(cell.metadata.version.as_str())?;
    if !cell.spec.communication.active && !cell.spec.communication.passive {
        return Err(
            Error::Validation(
                crate::text::owned("communication must enable active and/or passive"),
            ),
        );
    }
    if cell.spec.provides.len() == 0 && cell.spec.requires.len() == 0 {
        return Err(
            Error::Validation(
                crate::text::owned("cell must provide or require at least one capability"),
            ),
        );
    }
    let mut i: usize = 0;
    while i < cell.spec.provides.len()
        invariant
            i <= cell.spec.provides@.len(),
            forall|j: int| 0 <= j < i ==> !cap_blank(#[trigger] cell.spec.provides@[j]),
        decreases cell.spec.provides@.len() - i,
    {
        let cap = &cell.spec.provides[i];
        assert(cap == cell.spec.provides@[i as int]);
        if cap.name.as_str().unicode_len() == 0 || cap.version.as_str().unicode_len() == 0 {
            assert(cap_blank(cell.spec.provides@[i as int]));
            return Err(
                Error::Validation(crate::text::owned("provide capability name/version required")),
            );
        }
        i = i + 1;
    }
    let mut k: usize = 0;
    while k < cell.spec.requires.len()
        invariant
            k <= cell.spec.requires@.len(),
            forall|j: int| 0 <= j < k ==> !req_blank(#[trigger] cell.spec.requires@[j]),
        decreases cell.spec.requires@.len() - k,
    {
        let req = &cell.spec.requires[k];
        assert(req == cell.spec.requires@[k as int]);
        if req.name.as_str().unicode_len() == 0 || req.version.as_str().unicode_len() == 0 {
            assert(req_blank(cell.spec.requires@[k as int]));
            assert(!exists|i: int| 0 <= i < cell.spec.provides@.len() && cap_blank(#[trigger] cell.spec.provides@[i]));
            return Err(
                Error::Validation(crate::text::owned("require capability name/version required")),
            );
        }
        k = k + 1;
    }
    Ok(())
}

} // verus!
