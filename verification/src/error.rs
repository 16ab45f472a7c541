//! The error taxonomy of the engine.
//!
//! Pre-flight failures (`ManifestUnreadable`, `PromptAborted`) stop the run
//! before any copying begins.  The remaining variants are fatal to the copy
//! task that meets them and are propagated to the aggregator; sibling tasks
//! keep running independently.

use vstd::prelude::*;

verus! {

/// One fatal condition of a template run.
#[derive(Clone, Copy, Debug, PartialEq, Eq, Structural)]
pub enum Error {
    /// The manifest file is missing or unreadable.
    ManifestUnreadable,
    /// The interactive session that resolves a placeholder key was aborted.
    PromptAborted,
    /// Listing the entries of a template directory failed.
    DirectoryUnreadable,
    /// Creating an output directory failed and it did not already exist.
    DirectoryCreateFailed,
    /// Reading a template file failed.
    FileReadFailed,
    /// Writing an output file failed.
    FileWriteFailed,
    /// A spawned copy task terminated abnormally.
    TaskJoinFailed,
}

impl Error {
    /// A human-readable description of the condition.
    pub fn message(&self) -> (m: &'static str)
        ensures
            m@ == match self {
                Error::ManifestUnreadable => "manifest file missing or unreadable"@,
                Error::PromptAborted => "placeholder prompt aborted"@,
                Error::DirectoryUnreadable => "template directory could not be listed"@,
                Error::DirectoryCreateFailed => "output directory could not be created"@,
                Error::FileReadFailed => "template file could not be read"@,
                Error::FileWriteFailed => "output file could not be written"@,
                Error::TaskJoinFailed => "a copy task terminated abnormally"@,
            },
    {
        match self {
            Error::ManifestUnreadable => "manifest file missing or unreadable",
            Error::PromptAborted => "placeholder prompt aborted",
            Error::DirectoryUnreadable => "template directory could not be listed",
            Error::DirectoryCreateFailed => "output directory could not be created",
            Error::FileReadFailed => "template file could not be read",
            Error::FileWriteFailed => "output file could not be written",
            Error::TaskJoinFailed => "a copy task terminated abnormally",
        }
    }
}

} // verus!
