//! Errors of the query and mutation layer.

use vstd::prelude::*;
use crate::text::{concat, copy_str};

verus! {

/// An error of the runtime query and mutation layer.
#[derive(Debug)]
pub enum RuntimeError {
    /// The request could not be understood; the text says why.
    InvalidQuery(String),
    /// The asynchronous query was cancelled before it ran.
    QueryCancelled,
    /// No symbol has the given id.
    SymbolNotFound(String),
}

/// The text that describes an error.
pub open spec fn error_text(e: RuntimeError) -> Seq<char> {
    match e {
        RuntimeError::InvalidQuery(m) => "Invalid query: "@ + m@,
        RuntimeError::QueryCancelled => "Query cancelled"@,
        RuntimeError::SymbolNotFound(id) => "Symbol not found: "@ + id@,
    }
}

impl RuntimeError {
    /// The text that describes the error.
    pub fn message(&self) -> (r: String)
        ensures
            r@ == error_text(*self),
    {
        match self {
            RuntimeError::InvalidQuery(m) => concat("Invalid query: ", m.as_str()),
            RuntimeError::QueryCancelled => copy_str("Query cancelled"),
            RuntimeError::SymbolNotFound(id) => concat("Symbol not found: ", id.as_str()),
        }
    }
}

} // verus!
