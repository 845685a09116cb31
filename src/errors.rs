//! What can go wrong.
use vstd::prelude::*;

verus! {

#[verifier::external_type_specification]
#[verifier::external_body]
pub struct ExIoError(std::io::Error);

#[verifier::external_type_specification]
pub struct ExIoErrorKind(std::io::ErrorKind);

/// Relies on std::io::Error::kind: the category of an I/O failure.
#[verifier::external_body]
fn io_error_kind(e: &std::io::Error) -> std::io::ErrorKind {
    e.kind()
}

/// The failures of the engine.
#[derive(Debug)]
pub enum Error {
    /// A file operation failed.
    IOError(std::io::Error),
    /// The clock stands before the Unix epoch.
    SystemTimeError(String),
    /// A lock was poisoned by a panicking holder.
    PoisonError(String),
    /// A record's checksum does not match its bytes.
    CorruptedData,
    /// An argument breaks a rule, such as a handle cache of no room.
    InvalidData(String),
    /// A data file could not be removed.
    RemoveError,
    /// Not produced by the engine itself.
    Unknown,
}

impl Error {
    /// The I/O category of the error: that of the underlying failure for an I/O error,
    /// `Other` for any other.
    pub fn kind(&self) -> (r: std::io::ErrorKind)
        ensures
            !(self is IOError) ==> r == std::io::ErrorKind::Other,
    {
        match self {
            Error::IOError(e) => io_error_kind(e),
            _ => std::io::ErrorKind::Other,
        }
    }
}

} // verus!
