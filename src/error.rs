//! The library's error type.

use vstd::prelude::*;

verus! {

/// The class of a failure, which decides how callers react to it.
#[derive(Debug, Clone, Copy, PartialEq, Eq, Structural)]
pub enum ErrorKind {
    /// The engine or the transport to it failed.
    Engine,
    /// A specification was invalid or incomplete.
    Configuration,
    /// A state that may still change ("not yet healthy"); the only retryable kind.
    Transient,
    /// A command ended with another exit code than the one expected.
    ExitCode,
    /// A retry budget ran out.
    Timeout,
    /// Reading or packaging a build context failed.
    Build,
}

/// A failure with a human-readable description.
#[derive(Debug, Clone)]
pub struct Error {
    pub kind: ErrorKind,
    pub description: String,
}

impl Error {
    pub fn new(kind: ErrorKind, description: String) -> (r: Error)
        ensures
            r.kind == kind,
            r.description@ == description@,
    {
        Error { kind, description }
    }

    /// The description, as shown to a user.
    pub fn to_string(&self) -> (r: String)
        ensures
            r@ == self.description@,
    {
        self.description.clone()
    }
}

} // verus!
