//! The conditions under which an operation on notes fails.

use vstd::prelude::*;

verus! {

/// Why an operation on notes did not succeed.
#[derive(Clone, Copy, Debug, PartialEq, Eq, Structural)]
pub enum NoteError {
    /// The note to archive is not in the active partition.
    NotFound,
    /// The note to bring back is not in the archive.
    ArchivedNotFound,
    /// The metadata of a note could not be written as JSON. The JSON writer
    /// has no such failure for the metadata of a note, so that no operation
    /// of the store ends in this error.
    Metadata,
}

impl NoteError {
    /// The message that is shown for the error.
    pub fn message(&self) -> (out: String)
        ensures
            out@ == match *self {
                NoteError::NotFound => "File not found"@,
                NoteError::ArchivedNotFound => "Archived file not found"@,
                NoteError::Metadata => "Failed to serialize metadata"@,
            },
    {
        match self {
            NoteError::NotFound => "File not found".to_owned(),
            NoteError::ArchivedNotFound => "Archived file not found".to_owned(),
            NoteError::Metadata => "Failed to serialize metadata".to_owned(),
        }
    }
}

} // verus!
