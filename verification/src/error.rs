//! Structured parse failures.
//!
//! Every way a registry file can be rejected is one of these variants; a
//! single bad record aborts the whole run and surfaces as one such value.
use vstd::prelude::*;

verus! {

/// Why a record file, or a whole parse run, was rejected.
#[derive(Debug)]
pub enum ParseError {
    /// A line matched neither the `key:` form nor the continuation form,
    /// or a continuation line came before any keyed line.
    Grammar { line: String },
    /// The identity attribute in the record body differs from the identity
    /// derived from the file location.
    IdentityMismatch { expected: String, found: String },
    /// An attribute key the record's category does not recognize.
    UnknownKey { ident: String, key: String, value: String },
    /// A numeric or address sub-field that does not parse, or is out of its
    /// protocol range.
    BadNumber { value: String },
    /// A filename that does not encode a valid identity for its category.
    BadFilename { name: String },
}

} // verus!
