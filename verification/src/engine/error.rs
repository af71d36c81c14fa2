//! Error type for the engine runtime.
use vstd::prelude::*;
use crate::dgds::error::DgdsError;

verus! {

/// Errors produced while running the SCRANTIC interpreters.
#[derive(Debug, Clone, PartialEq, Eq)]
pub enum EngineError {
    /// A resource referenced by a script was not found in the archive.
    ResourceNotFound(String),
    /// An error from the underlying DGDS layer (e.g. bytecode decoding).
    Dgds(DgdsError),
}

impl From<DgdsError> for EngineError {
    fn from(e: DgdsError) -> (r: Self) {
        EngineError::Dgds(e)
    }
}

impl vstd::std_specs::convert::FromSpecImpl<DgdsError> for EngineError {
    open spec fn obeys_from_spec() -> bool {
        true
    }

    open spec fn from_spec(e: DgdsError) -> Self {
        EngineError::Dgds(e)
    }
}

impl EngineError {
    /// A one-line description of the error.
    pub fn message(&self) -> (s: String)
        ensures
            self matches EngineError::ResourceNotFound(n) ==> s@ == "resource not found: "@ + n@,
            self is Dgds ==> s@ == "DGDS error"@,
    {
        match self {
            EngineError::ResourceNotFound(name) => {
                let mut s = String::from_str("resource not found: ");
                s.append(name.as_str());
                s
            },
            EngineError::Dgds(_) => String::from_str("DGDS error"),
        }
    }
}

} // verus!
