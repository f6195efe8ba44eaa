use vstd::prelude::*;
use vstd::string::StringExecFns;

verus! {

/// The failures the library's operations can report.
#[derive(Clone, Copy, PartialEq, Eq, Structural, Debug)]
pub enum FileError {
    /// The filename was empty after trimming, or held a path separator.
    InvalidFilename,
    /// The host could not name an application data directory.
    DirectoryResolutionError,
    /// The application data directory could not be created.
    DirectoryCreationError,
    /// A document could not be read (missing or unreadable).
    ReadError,
    /// A document could not be written.
    WriteError,
    /// The store's directory could not be enumerated.
    ListError,
}

impl FileError {
    /// A short human-readable description of the failure.
    pub fn message(&self) -> (m: String)
        ensures
            m@ == match self {
                FileError::InvalidFilename => "invalid filename"@,
                FileError::DirectoryResolutionError => "failed to resolve app data dir"@,
                FileError::DirectoryCreationError => "failed to create app data dir"@,
                FileError::ReadError => "failed to read file"@,
                FileError::WriteError => "failed to write file"@,
                FileError::ListError => "failed to read app data dir"@,
            },
    {
        match self {
            FileError::InvalidFilename => String::from_str("invalid filename"),
            FileError::DirectoryResolutionError => String::from_str("failed to resolve app data dir"),
            FileError::DirectoryCreationError => String::from_str("failed to create app data dir"),
            FileError::ReadError => String::from_str("failed to read file"),
            FileError::WriteError => String::from_str("failed to write file"),
            FileError::ListError => String::from_str("failed to read app data dir"),
        }
    }
}

} // verus!
