//! The one way routing fails.
use vstd::prelude::*;

use crate::schema::error::SchemaError;

verus! {

/// Everything that can go wrong while resolving a capture to a destination.
///
/// Routing itself has no failure of its own: an unmatched chain segment or an
/// unrecognised sentence is a decision, not an error. Only the storage read
/// underneath it can fail.
#[derive(Debug, Clone, PartialEq, Eq)]
pub enum RouterError {
    Schema(SchemaError),
}

impl From<SchemaError> for RouterError {
    fn from(e: SchemaError) -> (r: RouterError) {
        RouterError::Schema(e)
    }
}

impl vstd::std_specs::convert::FromSpecImpl<SchemaError> for RouterError {
    open spec fn obeys_from_spec() -> bool {
        true
    }

    open spec fn from_spec(e: SchemaError) -> RouterError {
        RouterError::Schema(e)
    }
}

impl RouterError {
    /// The error as it reads to a user: the storage error's message after
    /// `storage error: `.
    pub fn message(&self) -> (s: String)
        ensures
            self matches RouterError::Schema(e) && s@ == "storage error: "@ + e.message_spec(),
    {
        match self {
            RouterError::Schema(e) => {
                let inner = e.message();
                let mut s = String::from_str("storage error: ");
                s.append(inner.as_str());
                s
            },
        }
    }
}

} // verus!
