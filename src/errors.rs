//! Error values of the crate.
use vstd::prelude::*;

verus! {

/// Result whose error is this crate's [`Error`].
pub type Result<T> = std::result::Result<T, Error>;

/// What went wrong, for callers that react to the kind of failure.
#[derive(Debug, Clone, Copy, PartialEq, Eq, Structural)]
pub enum ErrorKind {
    /// Input that could not be read or does not have the expected shape.
    IO,
    /// A value supplied by the caller that cannot be used.
    User,
    /// The input has no more records; this is how reading ends.
    Eof,
    /// The input does not start a record where one must start.
    Format,
    /// A symbol outside the alphabet that the operation supports.
    InvalidSymbol,
    /// A codon that has no entry in the translation table.
    UnrecognizedCodon,
}

/// An error: its kind and a message for people.
#[derive(Debug, PartialEq)]
pub struct Error {
    kind: ErrorKind,
    message: String,
}

impl Error {
    /// The kind of this error, for contracts.
    pub closed spec fn spec_kind(&self) -> ErrorKind {
        self.kind
    }

    /// The message of this error, for contracts.
    pub closed spec fn spec_message(&self) -> Seq<char> {
        self.message@
    }

    /// Builds an error of the given kind.
    pub fn new(kind: ErrorKind, message: &str) -> (r: Self)
        ensures
            r.spec_kind() == kind,
            r.spec_message() == message@,
    {
        Error { kind, message: message.to_owned() }
    }

    /// Returns the kind of the error.
    pub fn kind(&self) -> (r: &ErrorKind)
        ensures
            *r == self.spec_kind(),
    {
        &self.kind
    }
}

/// The kind of error that a result carries, `None` for success.
pub open spec fn failure<T>(r: Result<T>) -> Option<ErrorKind> {
    match r {
        Ok(_) => None,
        Err(e) => Some(e.spec_kind()),
    }
}

} // verus!
