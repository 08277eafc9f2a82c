//! Error taxonomy of the persistence core.
//!
//! [`GdPropError`] covers the header codec and the file edge around it;
//! these are never retried and always surface to the caller.  [`GdError`]
//! is the status returned by the whole-container operations (save, load,
//! UID transactions, reference resolution).

use vstd::prelude::*;

verus! {

/// Failure of the metadata header codec or of the file edge around it.
#[derive(PartialEq, Eq, Structural, Clone, Copy, Debug)]
pub enum GdPropError {
    /// The file could not be opened for reading.
    OpenFileRead,
    /// The file could not be opened for writing.
    OpenFileWrite,
    /// The header text or bytes do not follow the header grammar.
    HeaderDeserialize,
    /// The header fields contain characters the header grammar cannot carry.
    HeaderSerialize,
    /// Reading from an open file failed.
    FileRead,
    /// Writing to an open file failed.
    FileWrite,
}

impl GdPropError {
    /// A short human-readable description of the error.
    pub fn message(&self) -> (r: &str)
        ensures
            *self is OpenFileRead ==> r@ == "can't open file for reading"@,
            *self is OpenFileWrite ==> r@ == "can't open file for writing"@,
            *self is HeaderDeserialize ==> r@ == "can't deserialize header"@,
            *self is HeaderSerialize ==> r@ == "can't serialize header"@,
            *self is FileRead ==> r@ == "can't read file"@,
            *self is FileWrite ==> r@ == "can't write to file"@,
    {
        match self {
            GdPropError::OpenFileRead => "can't open file for reading",
            GdPropError::OpenFileWrite => "can't open file for writing",
            GdPropError::HeaderDeserialize => "can't deserialize header",
            GdPropError::HeaderSerialize => "can't serialize header",
            GdPropError::FileRead => "can't read file",
            GdPropError::FileWrite => "can't write to file",
        }
    }
}

/// Status of a whole-container operation.
#[derive(PartialEq, Eq, Structural, Clone, Copy, Debug)]
pub enum GdError {
    /// The container could not be produced.
    CantCreate,
    /// The destination could not be opened for writing.
    FileCantWrite,
    /// The source could not be opened for reading.
    FileCantOpen,
    /// The container was opened but its contents could not be read.
    FileCantRead,
    /// The container's header is corrupt or foreign.
    FileCorrupt,
    /// The container's class identity differs from the expected one.
    WrongType,
    /// The path carries no recognized container extension.
    FileUnrecognized,
    /// The UID is already canonically bound to a different path.
    AlreadyExists,
    /// The operation was invoked on a path no saver is configured for.
    Unconfigured,
    /// An external reference resolved by neither UID nor path.
    CantResolve,
    /// An external reference slot carried no descriptor where one is
    /// required.
    NoMeta,
}

impl GdError {
    /// A short human-readable description of the status.
    pub fn message(&self) -> (r: &str)
        ensures
            *self is CantResolve ==> r@ == "cannot load resource"@,
            *self is NoMeta ==> r@ == "no meta found"@,
            *self is WrongType ==> r@ == "file contains unexpected class"@,
            *self is AlreadyExists ==> r@ == "other resource of this UID already exists"@,
    {
        match self {
            GdError::CantCreate => "can't create file",
            GdError::FileCantWrite => "can't write to file",
            GdError::FileCantOpen => "can't open file",
            GdError::FileCantRead => "can't read file",
            GdError::FileCorrupt => "file is corrupt",
            GdError::WrongType => "file contains unexpected class",
            GdError::FileUnrecognized => "unrecognized format",
            GdError::AlreadyExists => "other resource of this UID already exists",
            GdError::Unconfigured => "no saver configured for this path",
            GdError::CantResolve => "cannot load resource",
            GdError::NoMeta => "no meta found",
        }
    }
}

} // verus!
