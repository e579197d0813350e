//! A detector of spaghetti code in Python packages.
//!
//! `scanner::scan_package` runs the checks under `checks` over the files of a package and
//! parts what they find into findings to report and findings that a marker in the source
//! suppresses. `scoring` turns findings into a remediation plan, and `cli` holds what the
//! command line decides: which packages are scanned, what is shown and how the process
//! ends.
//!
//! Each function states its result over the texts, trees and numbers that it is given. The
//! functions whose names begin with `law_` state what holds of several of them together.

pub mod alike;
pub mod ast_helpers;
pub mod cases;
pub mod checks;
pub mod cli;
pub mod config;
pub mod definitions;
pub mod graph;
pub mod measures;
pub mod models;
pub mod order;
pub mod paths;
pub mod patterns;
pub mod reach;
pub mod registry;
pub mod reports;
pub mod scanner;
pub mod scoring;
pub mod similarity;
pub mod spelling;
pub mod structure;
pub mod suppression;
pub mod syntax;
pub mod table;
pub mod text;
pub mod unparse;
pub mod walk;
pub mod within;
