//! Bulk syntax-validation traversal engine.
//!
//! Given models of filesystem paths, the library discovers source files
//! (directly, in directory trees, or inside archive containers), submits
//! each one's contents to an external parser, and aggregates failure
//! diagnostics, unreadable-file diagnostics, and a processed-file count.

pub mod names;
pub mod fs_model;
pub mod parse;
pub mod stats;
pub mod archive;
pub mod run;
