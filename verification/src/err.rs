//! Error taxonomy of the engine.

use vstd::prelude::*;

verus! {

use vstd::string::StringExecFns;

/// Everything that can go wrong inside the engine or at its edges.
///
/// The engine itself raises `InvalidVector`, `IdGenerationError` and
/// `SerializationError`; `IoError` and `MemtableError` wrap failures of
/// the surrounding storage plumbing.
#[derive(Debug, Clone)]
pub enum VFSError {
    IoError(String),
    MemtableError(String),
    InvalidVector(String),
    IdGenerationError(String),
    SerializationError(String),
}

impl VFSError {
    /// A human-readable description: a fixed prefix naming the kind,
    /// then the detail message.
    pub fn message(&self) -> (r: String)
        ensures
            match self {
                VFSError::IoError(m) => r@ == "I/O error: "@ + m@,
                VFSError::MemtableError(m) => r@ == "Memtable error: "@ + m@,
                VFSError::InvalidVector(m) => r@ == "Invalid vector: "@ + m@,
                VFSError::IdGenerationError(m) => r@ == "ID generation error: "@ + m@,
                VFSError::SerializationError(m) => r@ == "Serialization error: "@ + m@,
            },
    {
        match self {
            VFSError::IoError(m) => String::from_str("I/O error: ").concat(m.as_str()),
            VFSError::MemtableError(m) => String::from_str("Memtable error: ").concat(m.as_str()),
            VFSError::InvalidVector(m) => String::from_str("Invalid vector: ").concat(m.as_str()),
            VFSError::IdGenerationError(m) => String::from_str("ID generation error: ").concat(
                m.as_str(),
            ),
            VFSError::SerializationError(m) => String::from_str("Serialization error: ").concat(
                m.as_str(),
            ),
        }
    }

    /// The HTTP-style status code under which the error is reported:
    /// bad input is the client's fault, a snapshot that cannot be read
    /// is unprocessable, and everything else is an internal failure.
    pub fn status_code(&self) -> (r: u16)
        ensures
            r == match self {
                VFSError::InvalidVector(_) => 400u16,
                VFSError::SerializationError(_) => 422u16,
                VFSError::IoError(_) => 500u16,
                VFSError::MemtableError(_) => 500u16,
                VFSError::IdGenerationError(_) => 500u16,
            },
    {
        match self {
            VFSError::InvalidVector(_) => 400,
            VFSError::SerializationError(_) => 422,
            VFSError::IoError(_) => 500,
            VFSError::MemtableError(_) => 500,
            VFSError::IdGenerationError(_) => 500,
        }
    }

    /// The stable machine-readable name of the error kind, as reported
    /// in protocol responses.
    pub fn error_type(&self) -> (r: &'static str)
        ensures
            match self {
                VFSError::IoError(_) => r@ == "io_error"@,
                VFSError::MemtableError(_) => r@ == "storage_error"@,
                VFSError::InvalidVector(_) => r@ == "invalid_vector"@,
                VFSError::IdGenerationError(_) => r@ == "id_generation_error"@,
                VFSError::SerializationError(_) => r@ == "serialization_error"@,
            },
    {
        match self {
            VFSError::IoError(_) => "io_error",
            VFSError::MemtableError(_) => "storage_error",
            VFSError::InvalidVector(_) => "invalid_vector",
            VFSError::IdGenerationError(_) => "id_generation_error",
            VFSError::SerializationError(_) => "serialization_error",
        }
    }
}

} // verus!
