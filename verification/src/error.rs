//! The error taxonomy: every parse, read, or store step that can fail
//! reports one of these typed failures.

use vstd::prelude::*;

verus! {

/// A typed failure of parsing, decoding, or storage.
#[derive(Debug)]
pub enum GitError {
    /// A header or entry prefix is missing its space or NUL delimiter,
    /// or carries an unusable size field.
    MalformedHeader,
    /// The header names a kind other than blob, commit, tag, or tree;
    /// the unknown kind bytes are carried along.
    UnknownObjectKind(Vec<u8>),
    /// A tree entry's mode field is not a parsable unsigned number.
    InvalidMode,
    /// A tree entry ends before its 20 hash bytes.
    TruncatedEntry,
    /// No stored object exists for the requested hash.
    ObjectNotFound,
    /// A filesystem or compression-stream collaborator failed.
    IOFailure,
    /// The stored object is of a different kind than the caller asked for.
    TypeMismatch,
}

/// Mathematical image of `GitError`.
pub enum GitErrV {
    MalformedHeader,
    UnknownObjectKind(Seq<u8>),
    InvalidMode,
    TruncatedEntry,
    ObjectNotFound,
    IOFailure,
    TypeMismatch,
}

impl View for GitError {
    type V = GitErrV;

    open spec fn view(&self) -> GitErrV {
        match self {
            GitError::MalformedHeader => GitErrV::MalformedHeader,
            GitError::UnknownObjectKind(k) => GitErrV::UnknownObjectKind(k@),
            GitError::InvalidMode => GitErrV::InvalidMode,
            GitError::TruncatedEntry => GitErrV::TruncatedEntry,
            GitError::ObjectNotFound => GitErrV::ObjectNotFound,
            GitError::IOFailure => GitErrV::IOFailure,
            GitError::TypeMismatch => GitErrV::TypeMismatch,
        }
    }
}

} // verus!
