//! WASI Cells: registered by name with their module and export. This build has no
//! WebAssembly engine, so invoking one is refused after the request and the Cell
//! are checked.

use vstd::prelude::*;

use crate::envelope::{envelope_problem, Envelope};
use crate::error::{is_not_found, is_validation, Error, Result};
use crate::table::NameTable;
use crate::text::{join3, owned};

verus! {

/// A WASI Cell module.
#[derive(Debug, Clone)]
pub struct WasiSpec {
    /// Path of the `.wasm` module.
    pub module_file: String,
    /// Export to call (default `_start`).
    pub export: String,
    pub timeout_ms: u64,
}

/// WASI Cells by name.
#[derive(Debug)]
pub struct WasiExecutor {
    cells: NameTable<WasiSpec>,
}

/// The message of an invoke in a build without the engine.
pub open spec fn no_engine_msg() -> Seq<char> {
    "WASI executor requires building with `--features wasi`"@
}

impl Default for WasiExecutor {
    fn default() -> (r: Self)
        ensures
            r.wf(),
            r.specs() == Map::<Seq<char>, WasiSpec>::empty(),
    {
        WasiExecutor::new()
    }
}

impl WasiExecutor {
    /// The registered Cells.
    pub closed spec fn specs(&self) -> Map<Seq<char>, WasiSpec> {
        self.cells.as_map()
    }

    /// How many Cells are registered.
    pub closed spec fn count(&self) -> nat {
        self.cells.names().len()
    }

    /// Registered names are unique.
    pub closed spec fn wf(&self) -> bool {
        self.cells.wf()
    }

    /// No Cells.
    pub fn new() -> (r: Self)
        ensures
            r.wf(),
            r.specs() == Map::<Seq<char>, WasiSpec>::empty(),
            r.count() == 0,
    {
        WasiExecutor { cells: NameTable::new() }
    }

    /// Whether this build can run WASI modules: it cannot.
    pub fn feature_enabled() -> (r: bool)
        ensures
            !r,
    {
        false
    }

    /// Registers (or replaces) the module of `cell_name`.
    pub fn register(&mut self, cell_name: String, spec: WasiSpec)
        requires
            old(self).wf(),
        ensures
            final(self).wf(),
            final(self).specs() == old(self).specs().insert(cell_name@, spec),
    {
        self.cells.insert(cell_name, spec);
    }

    /// The module of `cell_name`.
    pub fn get(&self, cell_name: &str) -> (r: Option<&WasiSpec>)
        requires
            self.wf(),
        ensures
            match r {
                Some(s) => self.specs().contains_key(cell_name@) && *s == self.specs()[cell_name@],
                None => !self.specs().contains_key(cell_name@),
            },
    {
        self.cells.get(cell_name)
    }

    /// Takes the module of `cell_name` out.
    pub fn remove(&mut self, cell_name: &str) -> (r: Option<WasiSpec>)
        requires
            old(self).wf(),
        ensures
            final(self).wf(),
            final(self).specs() == old(self).specs().remove(cell_name@),
            match r {
                Some(s) => old(self).specs().contains_key(cell_name@) && s == old(self).specs()[cell_name@]
                    && final(self).count() == old(self).count() - 1,
                None => !old(self).specs().contains_key(cell_name@) && final(self).count() == old(self).count(),
            },
    {
        self.cells.remove(cell_name)
    }

    /// How many Cells are registered.
    pub fn len(&self) -> (r: usize)
        ensures
            r == self.count(),
    {
        self.cells.len()
    }

    /// Whether no Cell is registered.
    pub fn is_empty(&self) -> (r: bool)
        ensures
            r == (self.count() == 0),
    {
        self.cells.is_empty()
    }

    /// Checks the request and the Cell, then refuses: no engine in this build.
    pub fn invoke(&self, cell_name: &str, request: &Envelope) -> (r: Result<Envelope>)
        requires
            self.wf(),
        ensures
            envelope_problem(*request) is Some ==> (r matches Err(e) && is_validation(e, envelope_problem(*request)->0)),
            envelope_problem(*request) is None && !self.specs().contains_key(cell_name@) ==> (r matches Err(e)
                && is_not_found(e, "no wasi module for cell `"@ + cell_name@ + "`"@)),
            envelope_problem(*request) is None && self.specs().contains_key(cell_name@) ==> (r matches Err(e)
                && is_validation(e, no_engine_msg())),
    {
        request.validate()?;
        match self.cells.get(cell_name) {
            Some(_) => Err(Error::Validation(owned("WASI executor requires building with `--features wasi`"))),
            None => Err(Error::NotFound(join3("no wasi module for cell `", cell_name, "`"))),
        }
    }
}

} // verus!
