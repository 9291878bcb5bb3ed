//! The one shape of error that crosses the user-interface boundary.
use vstd::prelude::*;

use crate::schema::error::SchemaError;

verus! {

/// Errors a command reports.
#[derive(Debug, Clone, PartialEq, Eq)]
pub enum CommandError {
    /// The vault is locked.
    Locked,
    /// An id that is no UUID, carrying the text.
    InvalidId(String),
    /// A storage error, by its message.
    Schema(String),
    /// A capture with no text to file.
    EmptyCapture,
    /// The vault has not been set up yet.
    NotInitialized,
    /// The vault has already been set up.
    AlreadyInitialized,
    /// The passphrase or recovery key was wrong.
    WrongSecret,
    /// A file, vector-store or model error, by its message.
    Io(String),
}

impl CommandError {
    /// A storage error as a command error: a wrong secret as its own
    /// variant, so that the unlock screen can tell it apart, and every other
    /// one carrying its message.
    pub fn from_schema(err: SchemaError) -> (r: CommandError)
        ensures
            err is WrongSecret ==> r == CommandError::WrongSecret,
            !(err is WrongSecret) ==> (r matches CommandError::Schema(m) && m@ == err.message_spec()),
    {
        match err {
            SchemaError::WrongSecret => CommandError::WrongSecret,
            other => CommandError::Schema(other.message()),
        }
    }
}

} // verus!
