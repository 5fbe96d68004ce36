//! The errors that the entry points report.
use vstd::prelude::*;

verus! {

/// The result code of the storage layer for a violated constraint.
pub const CONSTRAINT: i32 = 19;

/// Why an entry point gave up. None of these is recovered from inside the
/// engine; the store is left as it was.
#[derive(Clone, Copy, PartialEq, Eq, Debug, Structural)]
pub enum SyncError {
    /// The input is not well-formed JSON, or a mandatory field is missing
    /// or of the wrong type.
    MalformedInput,
    /// A check of the store's consistency failed.
    IntegrityAbort,
    /// The storage layer refused a statement; `code` is its result code.
    StorageError { code: i32 },
}

impl SyncError {
    /// A short description of the error.
    pub fn message(&self) -> (text: String)
        ensures
            text@ == match *self {
                SyncError::MalformedInput => "malformed input"@,
                SyncError::IntegrityAbort => "integrity check failed"@,
                SyncError::StorageError { .. } => "storage error"@,
            },
    {
        match self {
            SyncError::MalformedInput => "malformed input".to_owned(),
            SyncError::IntegrityAbort => "integrity check failed".to_owned(),
            SyncError::StorageError { .. } => "storage error".to_owned(),
        }
    }
}

} // verus!
