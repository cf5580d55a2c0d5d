//! Stem → specialized Cell: the overlay of a specialization request onto a stem
//! template manifest, and the parsing of `name[:version]` capability tokens.

use vstd::prelude::*;

use crate::error::{is_validation, Error, Result};
use crate::manifest::cell::{Capability, CellManifest, Communication, Requirement, RuntimeKind, RuntimeSpec};
use crate::package::CellPackageMeta;
use crate::paths::{join_path, joined};
use crate::subprocess::opt_seq;
use crate::text::{
    chars_of, find_char, has_char, join2, join3, lower_chars, lower_seq, owned, same_text, slice_chars, string_of, trim_chars, trimmed,
};

verus! {

/// Inputs for specializing a stem template into a Cell package.
#[derive(Debug, Clone)]
pub struct SpecializeRequest {
    pub name: String,
    pub version: String,
    pub description: Option<String>,
    pub runtime: RuntimeKind,
    pub entrypoint: Option<String>,
    pub artifact: Option<String>,
    pub provides: Vec<(String, String)>,
    pub requires: Vec<(String, String)>,
    /// When either is set, the stem's communication is replaced.
    pub active: Option<bool>,
    pub passive: Option<bool>,
    pub stem_dir: String,
    pub out_dir: String,
    pub run_build: bool,
}

/// What specializing produced.
#[derive(Debug, Clone)]
pub struct SpecializeResult {
    pub cell_yaml: String,
    pub name: String,
    pub version: String,
    pub package: Option<CellPackageMeta>,
}

/// How a capability token splits: `(name, version)` before trimming each part.
pub open spec fn token_parts(t: Seq<char>) -> (Seq<char>, Seq<char>) {
    if has_char(t, ':') {
        let i = crate::manifest::cell::index_of(t, ':');
        (trimmed(t.take(i)), trimmed(t.skip(i + 1)))
    } else {
        (t, "1"@)
    }
}

/// What `parse_cap_token` gives for `token`.
pub open spec fn cap_token(token: Seq<char>) -> core::result::Result<(Seq<char>, Seq<char>), Seq<char>> {
    let t = trimmed(token);
    if t.len() == 0 {
        Err("empty capability token"@)
    } else if token_parts(t).0.len() == 0 || token_parts(t).1.len() == 0 {
        Err("invalid capability token `"@ + t + "` (expect name or name:version)"@)
    } else if has_char(token_parts(t).0, ':') {
        Err("invalid capability name in `"@ + t + "`"@)
    } else {
        Ok(token_parts(t))
    }
}

/// Parses `name` or `name:version`; the version defaults to `"1"`.
pub fn parse_cap_token(token: &str) -> (r: Result<(String, String)>)
    ensures
        match cap_token(token@) {
            Ok((n, v)) => r matches Ok((a, b)) && a@ == n && b@ == v,
            Err(m) => r matches Err(e) && is_validation(e, m),
        },
{
    let cs = chars_of(token);
    let t = trim_chars(&cs);
    if t.len() == 0 {
        return Err(Error::Validation(owned("empty capability token")));
    }
    let (name, version) = match find_char(&t, ':') {
        Some(i) => {
            proof {
                crate::manifest::cell::lemma_index_of(t@, ':');
                let k = crate::manifest::cell::index_of(t@, ':');
                assert(has_char(t@, ':'));
                if k < i {
                    assert(t@.take(i as int)[k] == ':');
                } else if k > i {
                    assert(t@[i as int] != ':');
                }
                assert(k == i);
            }
            let n = slice_chars(&t, 0, i);
            let v = slice_chars(&t, i + 1, t.len());
            assert(n@ =~= t@.take(i as int));
            assert(v@ =~= t@.skip(i + 1));
            (trim_chars(&n), trim_chars(&v))
        },
        None => {
            let mut one: Vec<char> = Vec::new();
            one.push('1');
            proof {
                reveal_strlit("1");
                assert(one@ =~= "1"@);
            }
            (t.clone(), one)
        },
    };
    assert(name@ == token_parts(t@).0 && version@ == token_parts(t@).1);
    let shown = string_of(t.as_slice());
    if name.len() == 0 || version.len() == 0 {
        return Err(
            Error::Validation(join3("invalid capability token `", shown.as_str(), "` (expect name or name:version)")),
        );
    }
    if find_char(&name, ':').is_some() {
        return Err(Error::Validation(join3("invalid capability name in `", shown.as_str(), "`")));
    }
    Ok((string_of(name.as_slice()), string_of(version.as_slice())))
}

/// An optional text that is missing or empty.
pub open spec fn blank(o: Option<Seq<char>>) -> bool {
    match o {
        Some(s) => s.len() == 0,
        None => true,
    }
}

/// The first of two optional texts that is present.
pub open spec fn or_else(a: Option<Seq<char>>, b: Option<Seq<char>>) -> Option<Seq<char>> {
    match a {
        Some(_) => a,
        None => b,
    }
}

/// The entrypoint of the specialized Cell.
pub open spec fn overlay_entrypoint(req: SpecializeRequest, stem: RuntimeSpec) -> Option<Seq<char>> {
    let e = or_else(opt_seq(req.entrypoint), opt_seq(stem.entrypoint));
    if !blank(e) {
        e
    } else {
        match req.runtime {
            RuntimeKind::Wasi => Some("_start"@),
            RuntimeKind::Subprocess => Some("kcell"@),
            RuntimeKind::Inprocess => Some("main"@),
        }
    }
}

/// The artifact of the specialized Cell.
pub open spec fn overlay_artifact(req: SpecializeRequest, stem: RuntimeSpec) -> Option<Seq<char>> {
    let a = or_else(opt_seq(req.artifact), opt_seq(stem.artifact));
    match req.runtime {
        RuntimeKind::Wasi => a,
        RuntimeKind::Subprocess => if blank(a) {
            Some("worker"@)
        } else {
            a
        },
        RuntimeKind::Inprocess => if req.artifact is None {
            None
        } else {
            a
        },
    }
}

/// The overlay is refused: a WASI Cell needs an artifact.
pub open spec fn overlay_refused(req: SpecializeRequest, stem: RuntimeSpec) -> bool {
    req.runtime == RuntimeKind::Wasi && blank(or_else(opt_seq(req.artifact), opt_seq(stem.artifact)))
}

/// The description of the specialized Cell.
pub open spec fn overlay_description(req: SpecializeRequest) -> Seq<char> {
    match req.description {
        Some(d) => d@,
        None => "Specialized from stem ("@ + req.name@ + ")"@,
    }
}

fn copy_opt(o: &Option<String>) -> (r: Option<String>)
    ensures
        opt_seq(r) == opt_seq(*o),
{
    match o {
        Some(s) => Some(s.clone()),
        None => None,
    }
}

fn is_blank(o: &Option<String>) -> (r: bool)
    ensures
        r == blank(opt_seq(*o)),
{
    match o {
        Some(s) => s.as_str().unicode_len() == 0,
        None => true,
    }
}

/// Overlays the request onto the stem manifest `cell`: name, version and
/// description always; the runtime with its defaults; provided and required
/// capabilities when the request lists any; communication when either flag is set.
/// A WASI Cell without artifact is refused after the metadata is set.
pub fn apply_overlay(cell: &mut CellManifest, req: &SpecializeRequest) -> (r: Result<()>)
    ensures
        final(cell).metadata.name@ == req.name@,
        final(cell).metadata.version@ == req.version@,
        opt_seq(final(cell).metadata.description) == Some(overlay_description(*req)),
        final(cell).api_version == old(cell).api_version,
        final(cell).kind == old(cell).kind,
        overlay_refused(*req, old(cell).spec.runtime) ==> {
            &&& r matches Err(e) && is_validation(e, "wasi specialize requires --artifact (.wasm path)"@)
            &&& final(cell).spec == old(cell).spec
        },
        !overlay_refused(*req, old(cell).spec.runtime) ==> {
            &&& r is Ok
            &&& final(cell).spec.runtime.kind == req.runtime
            &&& opt_seq(final(cell).spec.runtime.entrypoint) == overlay_entrypoint(*req, old(cell).spec.runtime)
            &&& opt_seq(final(cell).spec.runtime.artifact) == overlay_artifact(*req, old(cell).spec.runtime)
            &&& req.provides@.len() == 0 ==> final(cell).spec.provides == old(cell).spec.provides
            &&& req.provides@.len() > 0 ==> {
                &&& final(cell).spec.provides@.len() == req.provides@.len()
                &&& forall|i: int|
                    0 <= i < req.provides@.len() ==> (#[trigger] final(cell).spec.provides@[i]).name@
                        == req.provides@[i].0@ && final(cell).spec.provides@[i].version@ == req.provides@[i].1@
                        && final(cell).spec.provides@[i].contract is None
            }
            &&& req.requires@.len() == 0 ==> final(cell).spec.requires == old(cell).spec.requires
            &&& req.requires@.len() > 0 ==> {
                &&& final(cell).spec.requires@.len() == req.requires@.len()
                &&& forall|i: int|
                    0 <= i < req.requires@.len() ==> (#[trigger] final(cell).spec.requires@[i]).name@
                        == req.requires@[i].0@ && final(cell).spec.requires@[i].version@ == req.requires@[i].1@
                        && !final(cell).spec.requires@[i].optional && final(cell).spec.requires@[i].contract is None
            }
            &&& (req.active is Some || req.passive is Some) ==> final(cell).spec.communication == Communication {
                active: req.active == Some(true),
                passive: req.passive == Some(true),
            }
            &&& (req.active is None && req.passive is None) ==> final(cell).spec.communication
                == old(cell).spec.communication
            &&& final(cell).spec.ports == old(cell).spec.ports
            &&& final(cell).spec.resources == old(cell).spec.resources
            &&& final(cell).spec.permissions == old(cell).spec.permissions
            &&& final(cell).spec.health == old(cell).spec.health
            &&& final(cell).spec.restart_policy == old(cell).spec.restart_policy
        },
{
    cell.metadata.name = req.name.clone();
    cell.metadata.version = req.version.clone();
    match &req.description {
        Some(d) => {
            cell.metadata.description = Some(d.clone());
        },
        None => {
            cell.metadata.description = Some(join3("Specialized from stem (", req.name.as_str(), ")"));
        },
    }
    let entry = match &req.entrypoint {
        Some(e) => Some(e.clone()),
        None => copy_opt(&cell.spec.runtime.entrypoint),
    };
    let art = match &req.artifact {
        Some(a) => Some(a.clone()),
        None => copy_opt(&cell.spec.runtime.artifact),
    };
    let mut runtime = RuntimeSpec { kind: req.runtime, entrypoint: entry, artifact: art };
    match req.runtime {
        RuntimeKind::Wasi => {
            if is_blank(&runtime.artifact) {
                return Err(Error::Validation(owned("wasi specialize requires --artifact (.wasm path)")));
            }
            if is_blank(&runtime.entrypoint) {
                runtime.entrypoint = Some(owned("_start"));
            }
        },
        RuntimeKind::Subprocess => {
            if is_blank(&runtime.entrypoint) {
                runtime.entrypoint = Some(owned("kcell"));
            }
            if is_blank(&runtime.artifact) {
                runtime.artifact = Some(owned("worker"));
            }
        },
        RuntimeKind::Inprocess => {
            if is_blank(&runtime.entrypoint) {
                runtime.entrypoint = Some(owned("main"));
            }
            if req.artifact.is_none() {
                runtime.artifact = None;
            }
        },
    }
    cell.spec.runtime = runtime;
    if req.provides.len() > 0 {
        let mut caps: Vec<Capability> = Vec::new();
        let mut i: usize = 0;
        while i < req.provides.len()
            invariant
                i <= req.provides@.len(),
                caps@.len() == i,
                forall|j: int|
                    0 <= j < i ==> (#[trigger] caps@[j]).name@ == req.provides@[j].0@ && caps@[j].version@
                        == req.provides@[j].1@ && caps@[j].contract is None,
            decreases req.provides@.len() - i,
        {
            caps.push(
                Capability { name: req.provides[i].0.clone(), version: req.provides[i].1.clone(), contract: None },
            );
            i = i + 1;
        }
        cell.spec.provides = caps;
    }
    if req.requires.len() > 0 {
        let mut reqs: Vec<Requirement> = Vec::new();
        let mut i: usize = 0;
        while i < req.requires.len()
            invariant
                i <= req.requires@.len(),
                reqs@.len() == i,
                forall|j: int|
                    0 <= j < i ==> (#[trigger] reqs@[j]).name@ == req.requires@[j].0@ && reqs@[j].version@
                        == req.requires@[j].1@ && !reqs@[j].optional && reqs@[j].contract is None,
            decreases req.requires@.len() - i,
        {
            reqs.push(
                Requirement {
                    name: req.requires[i].0.clone(),
                    version: req.requires[i].1.clone(),
                    optional: false,
                    contract: None,
                },
            );
            i = i + 1;
        }
        cell.spec.requires = reqs;
    }
    if req.active.is_some() || req.passive.is_some() {
        cell.spec.communication = Communication {
            active: match req.active {
                Some(a) => a,
                None => false,
            },
            passive: match req.passive {
                Some(p) => p,
                None => false,
            },
        };
    }
    Ok(())
}

/// The README written beside a specialized `cell.yaml`.
pub open spec fn readme_for(name: Seq<char>, description: Option<Seq<char>>) -> Seq<char> {
    "# "@ + name + "\n\n"@ + match description {
        Some(d) => d,
        None => "Specialized Cell"@,
    } + "\n\nSpecialized from Stem via `kcell specialize`. Edit `cell.yaml`, then `kcell validate cell.yaml`.\n"@
}

/// The README text for a specialized Cell.
pub fn readme_text(cell: &CellManifest) -> (r: String)
    ensures
        r@ == readme_for(cell.metadata.name@, opt_seq(cell.metadata.description)),
{
    let desc = match &cell.metadata.description {
        Some(d) => d.as_str(),
        None => "Specialized Cell",
    };
    let head = join3("# ", cell.metadata.name.as_str(), "\n\n");
    join3(
        head.as_str(),
        desc,
        "\n\nSpecialized from Stem via `kcell specialize`. Edit `cell.yaml`, then `kcell validate cell.yaml`.\n",
    )
}

/// The runtime a command-line word names, ASCII case and surrounding white space
/// ignored.
pub open spec fn runtime_word(w: Seq<char>) -> Option<RuntimeKind> {
    let l = lower_seq(trimmed(w));
    if l == "inprocess"@ {
        Some(RuntimeKind::Inprocess)
    } else if l == "subprocess"@ {
        Some(RuntimeKind::Subprocess)
    } else if l == "wasi"@ {
        Some(RuntimeKind::Wasi)
    } else {
        None
    }
}

/// The refusal of a word that names no runtime.
pub open spec fn unknown_runtime(w: Seq<char>) -> Seq<char> {
    "unknown runtime `"@ + lower_seq(trimmed(w)) + "` (inprocess|subprocess|wasi)"@
}

/// The runtime named by `s`: `inprocess`, `subprocess` or `wasi`.
pub fn parse_runtime(s: &str) -> (r: core::result::Result<RuntimeKind, String>)
    ensures
        match runtime_word(s@) {
            Some(k) => r == Ok::<RuntimeKind, String>(k),
            None => r matches Err(e) && e@ == unknown_runtime(s@),
        },
{
    let cs = chars_of(s);
    let t = trim_chars(&cs);
    let l = lower_chars(&t);
    let word = string_of(l.as_slice());
    if same_text(word.as_str(), "inprocess") {
        Ok(RuntimeKind::Inprocess)
    } else if same_text(word.as_str(), "subprocess") {
        Ok(RuntimeKind::Subprocess)
    } else if same_text(word.as_str(), "wasi") {
        Ok(RuntimeKind::Wasi)
    } else {
        Err(join3("unknown runtime `", word.as_str(), "` (inprocess|subprocess|wasi)"))
    }
}

/// The capability tokens `ts` parsed in order, or the rendering of the first refusal.
pub open spec fn parse_tokens(ts: Seq<Seq<char>>) -> core::result::Result<Seq<(Seq<char>, Seq<char>)>, Seq<char>>
    decreases ts.len(),
{
    if ts.len() == 0 {
        Ok(Seq::empty())
    } else {
        match parse_tokens(ts.drop_last()) {
            Err(m) => Err(m),
            Ok(ps) => match cap_token(ts.last()) {
                Ok(p) => Ok(ps.push(p)),
                Err(m) => Err("validation: "@ + m),
            },
        }
    }
}

/// The texts of a list of strings.
pub open spec fn texts(v: Seq<String>) -> Seq<Seq<char>> {
    Seq::new(v.len(), |i: int| v[i]@)
}

/// The `(name, version)` texts of a list of pairs.
pub open spec fn pair_texts(v: Seq<(String, String)>) -> Seq<(Seq<char>, Seq<char>)> {
    Seq::new(v.len(), |i: int| (v[i].0@, v[i].1@))
}

/// Why a specialization request cannot be made from these words, if it cannot: the
/// first bad provided token, else the first bad required one, else an unknown runtime.
pub open spec fn request_problem(provide: Seq<Seq<char>>, require: Seq<Seq<char>>, runtime: Seq<char>) -> Option<Seq<char>> {
    match parse_tokens(provide) {
        Err(m) => Some(m),
        Ok(_) => match parse_tokens(require) {
            Err(m) => Some(m),
            Ok(_) => match runtime_word(runtime) {
                None => Some(unknown_runtime(runtime)),
                Some(_) => None,
            },
        },
    }
}

/// The provided capabilities of a request: the parsed tokens, or the Cell's own name
/// at version "1" when neither capabilities nor requirements were given.
pub open spec fn provided(name: Seq<char>, ps: Seq<(Seq<char>, Seq<char>)>, rs: Seq<(Seq<char>, Seq<char>)>) -> Seq<(Seq<char>, Seq<char>)> {
    if ps.len() == 0 && rs.len() == 0 {
        seq![(name, "1"@)]
    } else {
        ps
    }
}

/// Parses the tokens `ts`.
fn parse_all(ts: &Vec<String>) -> (r: core::result::Result<Vec<(String, String)>, String>)
    ensures
        match parse_tokens(texts(ts@)) {
            Ok(ps) => r matches Ok(v) && pair_texts(v@) == ps,
            Err(m) => r matches Err(e) && e@ == m,
        },
{
    let mut out: Vec<(String, String)> = Vec::new();
    let mut i: usize = 0;
    assert(texts(ts@).take(0) =~= Seq::<Seq<char>>::empty());
    assert(pair_texts(out@) =~= Seq::<(Seq<char>, Seq<char>)>::empty());
    while i < ts.len()
        invariant
            i <= ts@.len(),
            parse_tokens(texts(ts@).take(i as int)) == Ok::<Seq<(Seq<char>, Seq<char>)>, Seq<char>>(pair_texts(out@)),
        decreases ts@.len() - i,
    {
        let ghost pre = texts(ts@).take(i as int);
        let ghost next = texts(ts@).take(i + 1);
        assert(next.drop_last() =~= pre);
        assert(next.last() == ts@[i as int]@);
        match parse_cap_token(ts[i].as_str()) {
            Ok(p) => {
                let ghost before = pair_texts(out@);
                out.push(p);
                assert(pair_texts(out@) =~= before.push((p.0@, p.1@)));
            },
            Err(e) => {
                let m = e.message();
                proof {
                    lemma_tokens_stop(texts(ts@), i as int);
                }
                return Err(m);
            },
        }
        i = i + 1;
    }
    assert(texts(ts@).take(ts@.len() as int) =~= texts(ts@));
    Ok(out)
}

proof fn lemma_tokens_stop(ts: Seq<Seq<char>>, i: int)
    requires
        0 <= i < ts.len(),
        parse_tokens(ts.take(i + 1)) is Err,
    ensures
        parse_tokens(ts) == parse_tokens(ts.take(i + 1)),
    decreases ts.len() - i,
{
    if i + 1 < ts.len() {
        let next = ts.take(i + 2);
        assert(next.drop_last() =~= ts.take(i + 1));
        lemma_tokens_stop(ts, i + 1);
    } else {
        assert(ts.take(i + 1) =~= ts);
    }
}

/// The specialization request that the words of a `specialize` command ask for:
/// the Cell `name` at `version`, written to `dir` (the name when none is given),
/// from the stem template at `stem_dir`, providing the `provide` tokens and
/// requiring the `require` tokens (`name[:version]`, version "1" by default; the
/// Cell's own name at "1" when both are empty), on the named `runtime`, with the
/// given entrypoint, artifact (blank counts as none) and description; the
/// communication switches replace the stem's only when either is set.
pub fn specialize_request(
    name: &str,
    dir: Option<String>,
    stem_dir: String,
    provide: &Vec<String>,
    require: &Vec<String>,
    runtime: &str,
    entrypoint: Option<String>,
    artifact: Option<String>,
    version: &str,
    description: Option<String>,
    active: bool,
    passive: bool,
    build: bool,
) -> (r: core::result::Result<SpecializeRequest, String>)
    ensures
        match request_problem(texts(provide@), texts(require@), runtime@) {
            Some(m) => r matches Err(e) && e@ == m,
            None => r matches Ok(q) && {
                &&& q.name@ == name@
                &&& q.version@ == version@
                &&& q.description == description
                &&& Some(q.runtime) == runtime_word(runtime@)
                &&& q.entrypoint == entrypoint
                &&& opt_seq(q.artifact) == match artifact {
                    Some(a) => if trimmed(a@).len() == 0 {
                        None
                    } else {
                        Some(trimmed(a@))
                    },
                    None => None,
                }
                &&& parse_tokens(texts(provide@)) matches Ok(ps) && parse_tokens(texts(require@)) matches Ok(rs)
                    && pair_texts(q.provides@) == provided(name@, ps, rs) && pair_texts(q.requires@) == rs
                &&& q.active == (if active || passive { Some(active) } else { None })
                &&& q.passive == (if active || passive { Some(passive) } else { None })
                &&& q.stem_dir == stem_dir
                &&& q.out_dir@ == match dir {
                    Some(d) => d@,
                    None => name@,
                }
                &&& q.run_build == build
            },
        },
{
    let out_dir = match dir {
        Some(d) => d,
        None => owned(name),
    };
    let mut provides = match parse_all(provide) {
        Ok(v) => v,
        Err(e) => {
            return Err(e);
        },
    };
    let reqs = match parse_all(require) {
        Ok(v) => v,
        Err(e) => {
            return Err(e);
        },
    };
    if provides.len() == 0 && reqs.len() == 0 {
        provides.push((owned(name), owned("1")));
        assert(pair_texts(provides@) =~= seq![(name@, "1"@)]);
    }
    let artifact = match artifact {
        Some(a) => {
            let cs = chars_of(a.as_str());
            let t = trim_chars(&cs);
            if t.len() == 0 {
                None
            } else {
                Some(string_of(t.as_slice()))
            }
        },
        None => None,
    };
    let (active_opt, passive_opt) = if active || passive {
        (Some(active), Some(passive))
    } else {
        (None, None)
    };
    let runtime = match parse_runtime(runtime) {
        Ok(k) => k,
        Err(e) => {
            return Err(e);
        },
    };
    Ok(
        SpecializeRequest {
            name: owned(name),
            version: owned(version),
            description,
            runtime,
            entrypoint,
            artifact,
            provides,
            requires: reqs,
            active: active_opt,
            passive: passive_opt,
            stem_dir,
            out_dir,
            run_build: build,
        },
    )
}

/// The request `kcell new` makes: an in-process Cell `name` at version 0.1.0 that
/// provides its own name at version "1", with entrypoint `main`, passive, described
/// as scaffolded.
pub fn new_cell_request(name: &str, dir: Option<String>, stem_dir: String) -> (r: core::result::Result<SpecializeRequest, String>)
    ensures
        match request_problem(seq![name@ + ":1"@], Seq::empty(), "inprocess"@) {
            Some(m) => r matches Err(e) && e@ == m,
            None => r matches Ok(q) && {
                &&& q.name@ == name@
                &&& q.version@ == "0.1.0"@
                &&& q.description matches Some(d) && d@ == "Scaffolded by kcell new"@
                &&& Some(q.runtime) == runtime_word("inprocess"@)
                &&& q.entrypoint matches Some(ep) && ep@ == "main"@
                &&& q.artifact is None
                &&& parse_tokens(seq![name@ + ":1"@]) matches Ok(ps) && pair_texts(q.provides@) == ps
                &&& q.requires@.len() == 0
                &&& q.active == Some(false)
                &&& q.passive == Some(true)
                &&& q.stem_dir == stem_dir
                &&& q.out_dir@ == match dir {
                    Some(d) => d@,
                    None => name@,
                }
                &&& !q.run_build
            },
        },
{
    let mut provide: Vec<String> = Vec::new();
    provide.push(join2(name, ":1"));
    let require: Vec<String> = Vec::new();
    assert(texts(provide@) =~= seq![name@ + ":1"@]);
    assert(texts(require@) =~= Seq::<Seq<char>>::empty());
    let ghost one = seq![name@ + ":1"@];
    assert(one.drop_last() =~= Seq::<Seq<char>>::empty());
    assert(parse_tokens(Seq::<Seq<char>>::empty()) == Ok::<Seq<(Seq<char>, Seq<char>)>, Seq<char>>(Seq::empty()));
    let r = specialize_request(
        name,
        dir,
        stem_dir,
        &provide,
        &require,
        "inprocess",
        Some(owned("main")),
        None,
        "0.1.0",
        Some(owned("Scaffolded by kcell new")),
        false,
        true,
        false,
    );
    proof {
        if r is Ok {
            let q = r->Ok_0;
            assert(pair_texts(q.requires@).len() == q.requires@.len());
            if let Ok(ps) = parse_tokens(one) {
                assert(ps.len() == 1);
            }
        }
    }
    r
}

/// The stem template directory under `cwd`.
pub fn default_stem_dir(cwd: &str) -> (r: String)
    ensures
        r@ == joined(cwd@, "templates/stem-cell"@),
{
    join_path(cwd, "templates/stem-cell")
}

} // verus!
