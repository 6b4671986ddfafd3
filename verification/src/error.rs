//! The error taxonomy of the command.
//!
//! Every failure is terminal for a run: the caller prints the message
//! and exits with a non-zero code. No error is ever caught and retried.

use vstd::prelude::*;

verus! {

/// Why a run was aborted before (or during) the deletion.
#[derive(Clone, Copy, Debug, PartialEq, Eq, Structural)]
pub enum Error {
    /// No target directory was supplied on the command line.
    MissingArgument,
    /// The target does not resolve to anything on disk.
    NotFound,
    /// The target resolves to something that is not a directory.
    NotADirectory,
    /// The target is not a direct child of the current directory.
    NotASubdirectory,
    /// The filesystem failed while canonicalizing or deleting.
    IoError,
}

/// The human-readable message for each failure kind.
pub open spec fn message_spec(e: Error) -> Seq<char> {
    match e {
        Error::MissingArgument => "Please give directory to delete safely as argument"@,
        Error::NotFound => "No such directory"@,
        Error::NotADirectory => "Not a directory"@,
        Error::NotASubdirectory => "This is not a subdirectory"@,
        Error::IoError => "Filesystem operation failed"@,
    }
}

impl Error {
    /// The message that the command prints on its error stream.
    pub fn message(&self) -> (m: String)
        ensures
            m@ == message_spec(*self),
    {
        match self {
            Error::MissingArgument => "Please give directory to delete safely as argument".to_owned(),
            Error::NotFound => "No such directory".to_owned(),
            Error::NotADirectory => "Not a directory".to_owned(),
            Error::NotASubdirectory => "This is not a subdirectory".to_owned(),
            Error::IoError => "Filesystem operation failed".to_owned(),
        }
    }
}

} // verus!
