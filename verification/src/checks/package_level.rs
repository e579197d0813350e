//! The checks that look at all files of a package together.

use rustpython_ast::Mod;
use vstd::prelude::*;

pub use crate::checks::cycles::check_import_cycles_pkg;
pub use crate::checks::duplicates::check_duplicate_functions_pkg;
pub use crate::checks::twins::check_sync_async_twins_pkg;

verus! {

/// A file of a package: its path, its source and its syntax tree.
pub struct ParsedFile {
    pub path: String,
    pub source: String,
    pub module: Mod,
}

} // verus!
