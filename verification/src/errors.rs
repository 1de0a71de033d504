//! Error model: failures of outside collaborators (I/O, directory walking,
//! chunking) are carried as messages; a reference to an object that the
//! writer never issued is a programming error and is surfaced as such.
use crate::objects::ObjectId;
use vstd::prelude::*;

verus! {

/// A failure reported by an outside collaborator, with its message.
#[derive(Debug)]
pub enum ErrorKind {
    IoError(String),
    WalkError(String),
    ChunkingError(String),
}

/// What an [`Error`] holds.
#[derive(Debug)]
pub enum ErrorContents {
    /// A failure of an outside collaborator.
    Kind(ErrorKind),
    /// An object reference that this writer never issued.
    ObjectIdError(ObjectId),
    /// A violated internal invariant.
    InternalError(&'static str),
}

/// The error type of the archiver core.
#[derive(Debug)]
pub struct Error(pub ErrorContents);

impl ErrorContents {
    /// Wraps these contents as a failed result.
    pub fn emit<T>(self) -> (r: Result<T, Error>)
        ensures
            r == Result::<T, Error>::Err(Error(self)),
    {
        Err(Error(self))
    }
}

impl Error {
    /// True of an error that reports an unissued object reference.
    pub open spec fn is_object_id_error(self) -> bool {
        self.0 is ObjectIdError
    }

    /// True of an error that reports a violated internal invariant.
    pub open spec fn is_internal_error(self) -> bool {
        self.0 is InternalError
    }
}

/// Fails with an internal error carrying `msg`.
pub fn error<T>(msg: &'static str) -> (r: Result<T, Error>)
    ensures
        r == Result::<T, Error>::Err(Error(ErrorContents::InternalError(msg))),
{
    Err(Error(ErrorContents::InternalError(msg)))
}

/// Succeeds exactly when `cond` holds; otherwise fails with an internal
/// error carrying `msg`.
pub fn ensure(cond: bool, msg: &'static str) -> (r: Result<(), Error>)
    ensures
        cond ==> r == Result::<(), Error>::Ok(()),
        !cond ==> r == Result::<(), Error>::Err(Error(ErrorContents::InternalError(msg))),
{
    if cond {
        Ok(())
    } else {
        error(msg)
    }
}

} // verus!
