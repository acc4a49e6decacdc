//! Layered application of versioned SQL migrations.
//!
//! A server keeps its schema scripts in a base directory and, optionally, in
//! extra override directories.  This crate decides in which order those layers
//! are examined, what happens to a missing or empty layer, which scripts of a
//! layer are still outstanding against the ledger of applied versions, and how
//! a failing script is reported back against its source file.
pub mod text;
pub mod record;
pub mod layers;
pub mod ledger;
pub mod report;
pub mod runner;
pub mod source;

pub use report::migration_err;
