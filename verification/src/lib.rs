//! Schema-evolving inventory store with a typed value codec and an
//! append-only audit trail.
//!
//! The crate centers on three pieces: a validator for user-defined column
//! declarations, a codec that bridges declared column types and the generic
//! textual storage form, and a storage contract (`InvManDBPool`) whose
//! reference implementation keeps every record and audit ledger in memory,
//! with the bookkeeping rules proved.
use vstd::prelude::*;

pub mod commands;
pub mod notation;
pub mod schema;
pub mod schema_json;
pub mod sqlgen;
pub mod store;
pub mod text;

verus! {

/// Why an operation was refused, by kind, each carrying its description.
#[derive(Debug)]
pub enum InvManError {
    /// A declaration rule was violated, a `name=value` notation was
    /// malformed, a field name was unknown, or a value failed coercion.
    Validation(String),
    /// The caller's token was missing, malformed, or did not match.
    Authentication(String),
    /// A named schema column or a record identifier did not resolve.
    NotFound(String),
    /// The storage backend refused the mutation; nothing was changed.
    Storage(String),
}

impl InvManError {
    /// The error's description.
    pub fn message(&self) -> (r: &str)
        ensures
            r@ == self.text(),
    {
        match self {
            InvManError::Validation(s) => s.as_str(),
            InvManError::Authentication(s) => s.as_str(),
            InvManError::NotFound(s) => s.as_str(),
            InvManError::Storage(s) => s.as_str(),
        }
    }

    /// The characters of the error's description.
    pub open spec fn text(self) -> Seq<char> {
        match self {
            InvManError::Validation(s) => s@,
            InvManError::Authentication(s) => s@,
            InvManError::NotFound(s) => s@,
            InvManError::Storage(s) => s@,
        }
    }
}

} // verus!
