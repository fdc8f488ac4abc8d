//! The ways in which work on a manifest is given up.

use vstd::prelude::*;

verus! {

/// Why an operation was given up. None of these is retried.
#[derive(Clone, Copy, Debug, PartialEq, Eq, Structural)]
pub enum ManifestError {
    /// The manifest does not exist and its creation was not asked for.
    NotFound,
    /// The file system failed on a read or a write.
    IoFailure,
    /// The installer could not be started.
    InstallerSpawnFailure,
    /// What the installer printed is not valid UTF-8.
    EncodingFailure,
}

impl ManifestError {
    /// One line that tells a person what went wrong.
    pub fn message(&self) -> (text: &'static str)
        ensures
            text@ == match *self {
                ManifestError::NotFound => "the manifest does not exist"@,
                ManifestError::IoFailure => "the manifest could not be read or written"@,
                ManifestError::InstallerSpawnFailure => "the installer could not be started"@,
                ManifestError::EncodingFailure => "the installer's output is not valid UTF-8"@,
            },
    {
        match self {
            ManifestError::NotFound => "the manifest does not exist",
            ManifestError::IoFailure => "the manifest could not be read or written",
            ManifestError::InstallerSpawnFailure => "the installer could not be started",
            ManifestError::EncodingFailure => "the installer's output is not valid UTF-8",
        }
    }
}

} // verus!
