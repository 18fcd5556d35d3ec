//! What can go wrong, for the whole run or for one repository.

use vstd::prelude::*;

verus! {

/// Why an operation on one repository failed.
#[derive(Debug, Clone, PartialEq, Eq)]
pub enum Failure {
    /// The command could not be run or did not succeed; the text says how.
    Command(String),
    /// The command wrote something that is not UTF-8.
    InvalidUtf8,
}

/// What ends a run, or the work on one directory or repository.
#[derive(Debug, Clone, PartialEq, Eq)]
pub enum Error {
    /// The configuration file does not exist.
    ConfigMissing,
    /// The configuration file, or the home directory, cannot be read.
    ConfigUnreadable,
    /// The directory at this path cannot be listed.
    DirectoryExpansionFailed(String),
    /// An operation on one repository failed.
    RepositoryOperationFailed(Failure),
    /// `add` was asked for outside the root of a repository.
    AddOutsideRepository,
}

/// What `error` says to the user.
pub open spec fn message_of(error: Error) -> Seq<char> {
    match error {
        Error::ConfigMissing => "No ~/.repoutilrc"@,
        Error::ConfigUnreadable => "Cannot read ~/.repoutilrc"@,
        Error::DirectoryExpansionFailed(path) => "Cannot list "@ + path@,
        Error::RepositoryOperationFailed(Failure::Command(how)) => how@,
        Error::RepositoryOperationFailed(Failure::InvalidUtf8) => {
            "invalid UTF-8 in command output"@
        },
        Error::AddOutsideRepository => "Don't appear to be in the root of a git repo."@,
    }
}

impl Error {
    /// What this error says to the user.
    pub fn message(&self) -> (out: String)
        ensures
            out@ == message_of(*self),
    {
        match self {
            Error::ConfigMissing => String::from_str("No ~/.repoutilrc"),
            Error::ConfigUnreadable => String::from_str("Cannot read ~/.repoutilrc"),
            Error::DirectoryExpansionFailed(path) => {
                let mut out = String::from_str("Cannot list ");
                out.append(path.as_str());
                out
            },
            Error::RepositoryOperationFailed(Failure::Command(how)) => String::from_str(
                how.as_str(),
            ),
            Error::RepositoryOperationFailed(Failure::InvalidUtf8) => String::from_str(
                "invalid UTF-8 in command output",
            ),
            Error::AddOutsideRepository => String::from_str(
                "Don't appear to be in the root of a git repo.",
            ),
        }
    }
}

} // verus!
