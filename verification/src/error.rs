//! The failures that schema construction and decoding report.

use vstd::prelude::*;

verus! {

/// What went wrong.
#[derive(Clone, Copy, Debug, PartialEq, Eq, Structural)]
pub enum ErrorKind {
    /// The buffer is shorter than the layout requires.
    UnexpectedEof,
    /// The bytes of a text field are not valid UTF-8.
    InvalidEncoding,
    /// The compressed payload does not inflate.
    CorruptPayload,
    /// The schema declaration breaks a rule of the data model.
    SchemaViolation,
    /// A dynamic field names a dependency that has not been decoded.
    UnresolvedDependency,
}

/// A failed decode: what went wrong, at which field and at which byte.
///
/// `field` is the index of the field that was being read, `None` while the
/// header was being resolved; a failure inside a nested record is reported
/// for the field of the schema that holds the record. `offset` is where the
/// read that failed began: a count of bytes of the payload for a field, of
/// bytes of the raw buffer for the header.
#[derive(Clone, Copy, Debug, PartialEq, Eq, Structural)]
pub struct DecodeError {
    pub kind: ErrorKind,
    pub field: Option<usize>,
    pub offset: usize,
}

impl ErrorKind {
    /// True for the kinds that blame the schema, not the bytes of one message.
    pub open spec fn is_programming_error(self) -> bool {
        self == ErrorKind::SchemaViolation || self == ErrorKind::UnresolvedDependency
    }

    /// Tells the failures of a schema from the failures of one message.
    pub fn programming_error(self) -> (r: bool)
        ensures
            r == self.is_programming_error(),
    {
        match self {
            ErrorKind::SchemaViolation => true,
            ErrorKind::UnresolvedDependency => true,
            _ => false,
        }
    }
}

} // verus!
