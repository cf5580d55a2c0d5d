//! `ai-man.yaml`: a group of Cells, their static bindings and the group policy.

use vstd::prelude::*;

use crate::error::{is_validation, Error, Result};
use crate::manifest::cell::is_api_v1;
use crate::text::{join2, join3, join5, owned, same_text};

verus! {

/// An AI-man manifest (`kind: AIMan`).
#[derive(Debug, Clone)]
pub struct AIManManifest {
    pub api_version: String,
    pub kind: String,
    pub metadata: AIManMetadata,
    pub spec: AIManSpec,
}

/// Name and description of an AI-man.
#[derive(Debug, Clone)]
pub struct AIManMetadata {
    pub name: String,
    pub description: Option<String>,
}

/// The Cells of an AI-man, its static bindings and its policy.
#[derive(Debug, Clone)]
pub struct AIManSpec {
    pub cells: Vec<CellRef>,
    pub bindings: Vec<StaticBinding>,
    pub policy: AIManPolicy,
}

/// A Cell directory of an AI-man, relative to the AI-man root.
#[derive(Debug, Clone)]
pub struct CellRef {
    pub name: String,
    pub path: String,
    pub optional: bool,
    pub depends_on: Vec<String>,
}

/// A binding declared in the AI-man.
#[derive(Debug, Clone)]
pub struct StaticBinding {
    pub consumer: String,
    pub provider: String,
    pub capability: String,
    pub required: bool,
}

/// Value of `required` when a binding leaves it out.
pub fn default_true() -> (r: bool)
    ensures
        r,
{
    true
}

/// Policy of an AI-man.
#[derive(Debug, Clone, Copy, PartialEq, Eq, Structural)]
pub struct AIManPolicy {
    pub default_allow: bool,
    pub failure_strategy: FailureStrategy,
}

impl Default for AIManPolicy {
    fn default() -> (r: Self)
        ensures
            !r.default_allow,
            r.failure_strategy == FailureStrategy::ContinueOptional,
    {
        AIManPolicy { default_allow: false, failure_strategy: default_failure() }
    }
}

/// What to do when a Cell fails to start.
#[derive(Debug, Clone, Copy, PartialEq, Eq, Structural)]
pub enum FailureStrategy {
    FailFast,
    ContinueOptional,
}

/// Failure strategy when the policy leaves it out.
pub fn default_failure() -> (r: FailureStrategy)
    ensures
        r == FailureStrategy::ContinueOptional,
{
    FailureStrategy::ContinueOptional
}

/// Whether some Cell of `m` is named `x`.
pub open spec fn has_cell_name(m: AIManManifest, x: Seq<char>) -> bool {
    exists|j: int| 0 <= j < m.spec.cells@.len() && (#[trigger] m.spec.cells@[j]).name@ == x
}

/// Cell `i` repeats the name of an earlier Cell.
pub open spec fn dup_at(m: AIManManifest, i: int) -> bool {
    exists|j: int| 0 <= j < i && (#[trigger] m.spec.cells@[j]).name@ == m.spec.cells@[i].name@
}

/// The first Cell problem from position `i` on.
pub open spec fn cells_problem(m: AIManManifest, i: int) -> Option<Seq<char>>
    decreases m.spec.cells@.len() - i,
{
    if i < 0 || i >= m.spec.cells@.len() {
        None
    } else if dup_at(m, i) {
        Some("duplicate cell name `"@ + m.spec.cells@[i].name@ + "`"@)
    } else if m.spec.cells@[i].path@.len() == 0 {
        Some("cell `"@ + m.spec.cells@[i].name@ + "` path is empty"@)
    } else {
        cells_problem(m, i + 1)
    }
}

/// The first binding problem from position `i` on.
pub open spec fn bindings_problem(m: AIManManifest, i: int) -> Option<Seq<char>>
    decreases m.spec.bindings@.len() - i,
{
    if i < 0 || i >= m.spec.bindings@.len() {
        None
    } else if !has_cell_name(m, m.spec.bindings@[i].consumer@) {
        Some("binding consumer `"@ + m.spec.bindings@[i].consumer@ + "` not in cells"@)
    } else if !has_cell_name(m, m.spec.bindings@[i].provider@) {
        Some("binding provider `"@ + m.spec.bindings@[i].provider@ + "` not in cells"@)
    } else if m.spec.bindings@[i].capability@.len() == 0 {
        Some("binding capability must be non-empty"@)
    } else {
        bindings_problem(m, i + 1)
    }
}

/// The first unknown dependency of Cell `i` from dependency `k` on.
pub open spec fn deps_of_problem(m: AIManManifest, i: int, k: int) -> Option<Seq<char>>
    decreases m.spec.cells@[i].depends_on@.len() - k,
{
    let deps = m.spec.cells@[i].depends_on@;
    if k < 0 || k >= deps.len() {
        None
    } else if !has_cell_name(m, deps[k]@) {
        Some("cell `"@ + m.spec.cells@[i].name@ + "` depends on unknown `"@ + deps[k]@ + "`"@)
    } else {
        deps_of_problem(m, i, k + 1)
    }
}

/// The first unknown dependency of Cells from position `i` on.
pub open spec fn deps_problem(m: AIManManifest, i: int) -> Option<Seq<char>>
    decreases m.spec.cells@.len() - i,
{
    if i < 0 || i >= m.spec.cells@.len() {
        None
    } else if deps_of_problem(m, i, 0) is Some {
        deps_of_problem(m, i, 0)
    } else {
        deps_problem(m, i + 1)
    }
}

/// The first rule an AI-man manifest breaks, as its message; `None` when valid.
pub open spec fn aiman_problem(m: AIManManifest) -> Option<Seq<char>> {
    if m.api_version@ != crate::manifest::cell::api_v1() {
        Some("unsupported apiVersion: "@ + m.api_version@)
    } else if m.kind@ != "AIMan"@ {
        Some("expected kind AIMan, got "@ + m.kind@)
    } else if m.spec.cells@.len() == 0 {
        Some("ai-man must list at least one cell"@)
    } else if cells_problem(m, 0) is Some {
        cells_problem(m, 0)
    } else if bindings_problem(m, 0) is Some {
        bindings_problem(m, 0)
    } else {
        deps_problem(m, 0)
    }
}

/// Whether some Cell of `m` is named `x`.
pub fn cell_name_listed(m: &AIManManifest, x: &String) -> (r: bool)
    ensures
        r == has_cell_name(*m, x@),
{
    let mut j: usize = 0;
    while j < m.spec.cells.len()
        invariant
            j <= m.spec.cells@.len(),
            forall|t: int| 0 <= t < j ==> (#[trigger] m.spec.cells@[t]).name@ != x@,
        decreases m.spec.cells@.len() - j,
    {
        if m.spec.cells[j].name == *x {
            return true;
        }
        j = j + 1;
    }
    false
}

/// Checks an AI-man: API version, kind, at least one Cell, unique Cell names with
/// paths, bindings between listed Cells, and dependencies on listed Cells. The first
/// broken rule is reported.
#[verifier::loop_isolation(false)]
pub fn validate_aiman(man: &AIManManifest) -> (r: Result<()>)
    ensures
        r is Ok <==> aiman_problem(*man) is None,
        r matches Err(e) ==> is_validation(e, aiman_problem(*man)->0),
{
    if !is_api_v1(man.api_version.as_str()) {
        return Err(Error::Validation(join2("unsupported apiVersion: ", man.api_version.as_str())));
    }
    if !same_text(man.kind.as_str(), "AIMan") {
        return Err(Error::Validation(join2("expected kind AIMan, got ", man.kind.as_str())));
    }
    let n = man.spec.cells.len();
    if n == 0 {
        return Err(Error::Validation(owned("ai-man must list at least one cell")));
    }
    let ghost m = *man;
    let mut i: usize = 0;
    while i < n
        invariant
            i <= n,
            n == m.spec.cells@.len(),
            cells_problem(m, 0) == cells_problem(m, i as int),
        decreases n - i,
    {
        let cell = &man.spec.cells[i];
        let mut j: usize = 0;
        while j < i
            invariant
                j <= i,
                forall|t: int| 0 <= t < j ==> (#[trigger] m.spec.cells@[t]).name@ != m.spec.cells@[i as int].name@,
            decreases i - j,
        {
            if man.spec.cells[j].name == cell.name {
                assert(dup_at(m, i as int));
                return Err(Error::Validation(join3("duplicate cell name `", cell.name.as_str(), "`")));
            }
            j = j + 1;
        }
        assert(!dup_at(m, i as int));
        if cell.path.as_str().unicode_len() == 0 {
            return Err(Error::Validation(join3("cell `", cell.name.as_str(), "` path is empty")));
        }
        i = i + 1;
    }
    assert(cells_problem(m, i as int) is None);
    let nb = man.spec.bindings.len();
    let mut b: usize = 0;
    while b < nb
        invariant
            b <= nb,
            nb == m.spec.bindings@.len(),
            bindings_problem(m, 0) == bindings_problem(m, b as int),
        decreases nb - b,
    {
        let bd = &man.spec.bindings[b];
        if !cell_name_listed(man, &bd.consumer) {
            return Err(Error::Validation(join3("binding consumer `", bd.consumer.as_str(), "` not in cells")));
        }
        if !cell_name_listed(man, &bd.provider) {
            return Err(Error::Validation(join3("binding provider `", bd.provider.as_str(), "` not in cells")));
        }
        if bd.capability.as_str().unicode_len() == 0 {
            return Err(Error::Validation(owned("binding capability must be non-empty")));
        }
        b = b + 1;
    }
    assert(bindings_problem(m, b as int) is None);
    let mut c: usize = 0;
    while c < n
        invariant
            c <= n,
            n == m.spec.cells@.len(),
            deps_problem(m, 0) == deps_problem(m, c as int),
        decreases n - c,
    {
        let cell = &man.spec.cells[c];
        let nd = cell.depends_on.len();
        let mut k: usize = 0;
        while k < nd
            invariant
                k <= nd,
                nd == m.spec.cells@[c as int].depends_on@.len(),
                deps_of_problem(m, c as int, 0) == deps_of_problem(m, c as int, k as int),
            decreases nd - k,
        {
            let dep = &cell.depends_on[k];
            if !cell_name_listed(man, dep) {
                return Err(
                    Error::Validation(
                        join5("cell `", cell.name.as_str(), "` depends on unknown `", dep.as_str(), "`"),
                    ),
                );
            }
            k = k + 1;
        }
        assert(deps_of_problem(m, c as int, k as int) is None);
        c = c + 1;
    }
    assert(deps_problem(m, c as int) is None);
    Ok(())
}

} // verus!
