//! The error type of the library.
use vstd::prelude::*;

verus! {

/// What went wrong.
#[derive(Debug, PartialEq, Eq, Structural, Copy, Clone)]
pub enum ErrorKind {
    /// The text is not an XML document.
    MalformedDocument,
    /// A `viewBox` value has the wrong number of elements or a non-numeric element.
    InvalidViewBox,
    /// A length has no magnitude, a magnitude that cannot be represented, or an unknown unit.
    InvalidLength,
    /// The file could not be read.
    UnreadableFile,
}

/// The error type of the library, which gets returned on parsing issues.
#[derive(Debug)]
pub struct Metadata {
    /// What went wrong.
    pub kind: ErrorKind,
    /// A human-readable description.
    pub details: String,
}

impl Metadata {
    /// An error of the given kind with the given description.
    pub fn new(kind: ErrorKind, msg: &str) -> (r: Metadata)
        ensures
            r.kind == kind,
            r.details@ == msg@,
    {
        Metadata { kind, details: String::from_str(msg) }
    }

    /// The human-readable description.
    pub fn description(&self) -> (r: &str)
        ensures
            r@ == self.details@,
    {
        self.details.as_str()
    }
}

} // verus!
