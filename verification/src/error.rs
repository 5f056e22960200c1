//! The failure taxonomy of the library. Every operation reports
//! failure through a typed result; nothing panics.

use vstd::prelude::*;

verus! {

/// Why an operation on an asset buffer or a key was refused.
#[derive(Debug, Clone)]
pub enum Error {
    /// The extension string does not belong to the closed set of
    /// known names.
    InvalidExtension(String),
    /// A hex key string failed validation.
    InvalidKey,
    /// Fake-header verification failed, or a buffer was too short to
    /// hold the fake header.
    InvalidHeader,
    /// The operation was invoked on a zero-length buffer.
    EmptyFile,
    /// A format tag was not recognised.
    UnsupportedFileType(String),
    /// Every key-detection heuristic was exhausted without success.
    KeyDetectionFailed,
}

impl Error {
    /// A short human-readable description of the failure.
    pub fn message(&self) -> (r: &'static str)
        ensures
            r@ == self.message_spec(),
    {
        match self {
            Error::InvalidExtension(_) => "invalid file extension",
            Error::InvalidKey => "invalid encryption key",
            Error::InvalidHeader => "invalid file header",
            Error::EmptyFile => "file is empty",
            Error::UnsupportedFileType(_) => "unsupported file type",
            Error::KeyDetectionFailed => "failed to detect encryption key",
        }
    }

    /// What `message` returns for each variant.
    pub open spec fn message_spec(&self) -> Seq<char> {
        match self {
            Error::InvalidExtension(_) => "invalid file extension"@,
            Error::InvalidKey => "invalid encryption key"@,
            Error::InvalidHeader => "invalid file header"@,
            Error::EmptyFile => "file is empty"@,
            Error::UnsupportedFileType(_) => "unsupported file type"@,
            Error::KeyDetectionFailed => "failed to detect encryption key"@,
        }
    }
}

} // verus!
