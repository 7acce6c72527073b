//! The interface every file system offers the shell.

use vstd::prelude::*;

verus! {

/// Why a file operation failed.
#[derive(Debug, Clone, Copy, PartialEq, Eq, Structural)]
pub enum FsError {
    NotFound,
    Exists,
    InvalidName,
    Io,
}

impl FsError {
    /// The message shown for the error.
    pub open spec fn message_spec(self) -> Seq<char> {
        match self {
            FsError::NotFound => "not found"@,
            FsError::Exists => "already exists"@,
            FsError::InvalidName => "invalid name"@,
            FsError::Io => "I/O error"@,
        }
    }

    /// The message shown for the error.
    pub fn message(&self) -> (r: String)
        ensures
            r@ == self.message_spec(),
    {
        match self {
            FsError::NotFound => "not found".to_owned(),
            FsError::Exists => "already exists".to_owned(),
            FsError::InvalidName => "invalid name".to_owned(),
            FsError::Io => "I/O error".to_owned(),
        }
    }
}

/// A flat file system: files named by a path, each holding bytes.
pub trait FileSystem {
    /// The contents of a file.
    fn read(&self, path: &str) -> Result<Vec<u8>, FsError>;

    /// Replaces (or creates) a file with `data`.
    fn write(&mut self, path: &str, data: &[u8]) -> Result<(), FsError>;

    /// Creates an empty file.
    fn create(&mut self, path: &str) -> Result<(), FsError>;

    /// Removes a file.
    fn delete(&mut self, path: &str) -> Result<(), FsError>;

    /// Every file with its size in bytes.
    fn list(&self) -> Vec<(String, usize)>;
}

} // verus!
