//! The rules that findings come from.

pub mod ast_per_file;
pub mod bindings;
pub mod branches;
pub mod classes;
pub mod common;
pub mod cycles;
pub mod duplicates;
pub mod flow;
pub mod functions;
pub mod imports;
pub mod limits;
pub mod literals;
pub mod members;
pub mod outer;
pub mod package_level;
pub mod provenance;
pub mod reporting;
pub mod scope;
pub mod scopes;
pub mod text_per_file;
pub mod twins;
pub mod unnamed;
