//! The error taxonomy of the launcher's core operations.

use vstd::prelude::*;

verus! {

/// What can go wrong while searching the base directory or launching an
/// entry. Every failure is surfaced to the immediate caller as one of these
/// values; nothing is retried or silently recovered.
#[derive(Debug)]
pub enum AppError {
    /// The base directory is absent or is not a directory at search time.
    ConfigurationMissing,
    /// A directory entry name cannot be represented as valid text.
    EncodingError,
    /// A filesystem operation failed while enumerating or reading entries;
    /// the payload is the reported reason.
    IOError(String),
    /// The command interpreter used to open an entry could not be started;
    /// the payload is the reported reason.
    ProcessSpawnError(String),
}

impl AppError {
    /// A human-readable description of the error, in place of `Display`,
    /// which a verified type cannot implement.
    pub fn describe(&self) -> (r: String)
        ensures
            match self {
                AppError::ConfigurationMissing => r@ == "configuration error: the base directory is absent or not a directory"@,
                AppError::EncodingError => r@ == "encoding error: a directory entry name is not valid text"@,
                AppError::IOError(m) => r@ == "io error: "@ + m@,
                AppError::ProcessSpawnError(m) => r@ == "process spawn error: "@ + m@,
            },
    {
        match self {
            AppError::ConfigurationMissing => String::from_str(
                "configuration error: the base directory is absent or not a directory",
            ),
            AppError::EncodingError => String::from_str(
                "encoding error: a directory entry name is not valid text",
            ),
            AppError::IOError(m) => String::from_str("io error: ").concat(m.as_str()),
            AppError::ProcessSpawnError(m) => String::from_str("process spawn error: ").concat(
                m.as_str(),
            ),
        }
    }
}

} // verus!
