//! Error values of the Binary DB stores and codecs.

use vstd::prelude::*;

verus! {

#[derive(Clone, Copy, Debug, PartialEq, Eq)]
pub enum BinaryDbErrorKind {
    /// A persisted or requested layout id is not the supported one.
    LayoutMismatch,
    /// A file, record or index entry that must exist is absent.
    MissingData,
    /// Persisted bytes contradict the schema.
    Corruption,
    /// An argument or a decoded value is not acceptable.
    Invalid,
}

#[derive(Clone, Debug)]
pub struct BinaryDbError {
    pub kind: BinaryDbErrorKind,
    pub message: String,
}

pub type StoreResult<T> = Result<T, BinaryDbError>;

impl BinaryDbError {
    pub fn new(kind: BinaryDbErrorKind, message: String) -> (e: Self)
        ensures
            e.kind == kind,
            e.message@ == message@,
    {
        BinaryDbError { kind, message }
    }

    pub fn kind(&self) -> (k: BinaryDbErrorKind)
        ensures
            k == self.kind,
    {
        self.kind
    }

    /// The human-readable description of this error.
    pub fn message(&self) -> (m: String)
        ensures
            m@ == self.message@,
    {
        self.message.clone()
    }
}

} // verus!
