//! The typed failures of the inspection layer.
//!
//! Every structural inconsistency in a buffer is reported as an [`Error`]
//! carrying one of the kinds below and the buffer offset that gives it
//! context; the library never panics on malformed input.  A failed name
//! resolution is not an error: it degrades to an empty name instead.

use vstd::prelude::*;

verus! {

/// How an inspection can fail.
#[derive(Clone, Copy, Debug, PartialEq, Eq, Structural)]
pub enum ErrorKind {
    /// The buffer is too short to hold a known magic number, or no known
    /// magic number matches its leading bytes.
    DetectionFailure,
    /// A header field is inconsistent with its format's definition.
    MalformedHeader,
    /// A table's offset or count places it beyond the end of the buffer.
    TruncatedTable,
    /// A recognized container holds a sub-format this layer does not handle.
    UnsupportedVariant,
    /// A caller-supplied section index is outside the section table.
    IndexOutOfRange,
}

/// The mathematical value of an [`Error`].
pub ghost struct ErrorRec {
    pub kind: ErrorKind,
    pub offset: int,
}

/// A typed, recoverable failure: its kind, and the offset (or index) in the
/// inspected buffer at which the inconsistency was found.
#[derive(Clone, Copy, Debug, PartialEq, Eq, Structural)]
pub struct Error {
    pub kind: ErrorKind,
    pub offset: usize,
}

impl View for Error {
    type V = ErrorRec;

    open spec fn view(&self) -> ErrorRec {
        ErrorRec { kind: self.kind, offset: self.offset as int }
    }
}

/// The words that describe each failure kind.
pub open spec fn kind_message(k: ErrorKind) -> Seq<char> {
    match k {
        ErrorKind::DetectionFailure => "unrecognized or too-short buffer"@,
        ErrorKind::MalformedHeader => "malformed header field"@,
        ErrorKind::TruncatedTable => "table offset or count beyond buffer end"@,
        ErrorKind::UnsupportedVariant => "unsupported sub-format variant"@,
        ErrorKind::IndexOutOfRange => "section index out of range"@,
    }
}

impl Error {
    /// A human-readable description of the failure.
    pub fn message(&self) -> (r: String)
        ensures
            r@ == kind_message(self.kind),
    {
        match self.kind {
            ErrorKind::DetectionFailure => "unrecognized or too-short buffer".to_owned(),
            ErrorKind::MalformedHeader => "malformed header field".to_owned(),
            ErrorKind::TruncatedTable => "table offset or count beyond buffer end".to_owned(),
            ErrorKind::UnsupportedVariant => "unsupported sub-format variant".to_owned(),
            ErrorKind::IndexOutOfRange => "section index out of range".to_owned(),
        }
    }
}

} // verus!
