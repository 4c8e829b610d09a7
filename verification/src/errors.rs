//! The structured failure type every component reports: a category, a full
//! message, and for JSON parse failures the position the parser cited.

use vstd::prelude::*;

verus! {

/// The categories of failure the engine distinguishes.
#[derive(Clone, Copy, PartialEq, Eq, Structural, Debug)]
pub enum ErrorKind {
    /// Empty or otherwise unusable text for the requested format.
    InvalidInput,
    /// Structurally invalid JSON, XML or JWT.
    ParseFailure,
    /// A base64 or UTF-8 decoding failure.
    EncodingFailure,
    /// An unknown format tag.
    UnsupportedFormat,
    /// A lock or storage failure.
    StateError,
    /// A file open, read or metadata failure during ingestion.
    IoFailure,
}

/// A 1-based line and the column the parser reported.
#[derive(Clone, Copy, PartialEq, Eq, Structural, Debug)]
pub struct ErrLocation {
    pub line: usize,
    pub column: usize,
}

/// A structured failure: category, rendered message, and optional position.
#[derive(Debug)]
pub struct FormatError {
    pub kind: ErrorKind,
    pub message: String,
    pub location: Option<ErrLocation>,
}

impl FormatError {
    /// A failure with a message and no position.
    pub fn new(kind: ErrorKind, message: String) -> (r: FormatError)
        ensures
            r.kind == kind,
            r.message == message,
            r.location is None,
    {
        FormatError { kind, message, location: None }
    }

    /// The flat message handed to the outer boundary.
    pub fn render(&self) -> (r: String)
        ensures
            r@ == self.message@,
    {
        self.message.clone()
    }
}

} // verus!
