//! Verified registry parser and ROA generator.
//!
//! The library ingests a plain-text network registry (one record per file,
//! `key:` / value lines), builds a typed aggregate store, and derives Route
//! Origin Authorization lines constrained by a prefix-length policy table.
#![verifier::loop_isolation(false)]

pub mod data;
pub mod error;
pub mod grammar;
pub mod laws;
pub mod net;
pub mod parse;
pub mod roa;
pub mod text;
