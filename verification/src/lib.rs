//! Build-time preprocessor for structured documents: resolves `$include`
//! directives against preloaded file contents and instantiates reusable
//! `<GENERIC>` template fragments with caller-supplied bindings.

pub mod errors;
pub mod generics;
pub mod inclusion;
pub mod laws;
pub mod logger;
pub mod merge;
pub mod paths;
pub mod table;
pub mod value;

use vstd::prelude::*;

use crate::errors::{spec_result_matches, ProcessError, SpecProcessError};
use crate::generics::{apply_generic, spec_apply_generic};
use crate::inclusion::{including, spec_including, SourceTable, SpecSourceFile};
use crate::value::{SpecValue, Value};

verus! {

/// The whole pipeline on a loaded root document: resolve every include
/// against the loaded sources, then collect the template definitions and
/// instantiate every invocation. The first failing stage aborts the run.
pub open spec fn spec_process(
    v: SpecValue,
    base: Seq<char>,
    table: Seq<(Seq<char>, Seq<SpecSourceFile>)>,
) -> Result<SpecValue, SpecProcessError> {
    match spec_including(v, base, table, table.len() as nat) {
        Err(e) => Err(e),
        Ok(resolved) => spec_apply_generic(resolved),
    }
}

/// Process a loaded root document: resolve its includes against the loaded
/// sources (relative patterns joined under `base_path`), then instantiate
/// its generics. Returns the rewritten tree, or the first failure.
pub fn process(root: &Value, base_path: &str, sources: &SourceTable) -> (r: Result<
    Value,
    ProcessError,
>)
    ensures
        spec_result_matches(r, spec_process(root@, base_path@, sources@)),
{
    let fuel = sources.len();
    match including(root, base_path, sources, fuel) {
        Err(e) => Err(e),
        Ok(resolved) => apply_generic(&resolved),
    }
}

} // verus!
