//! The error values that the library returns.
use vstd::prelude::*;

verus! {

#[derive(Clone, Copy, Debug, PartialEq, Eq)]
pub enum CoreError {
    /// The reference configuration is missing or cannot be parsed.
    ReferenceDataUnavailable,
    /// Mismatched lengths, or an index outside the structure.
    MalformedInput,
    /// No compatible GPU adapter or device was found.
    DeviceUnavailable,
    /// A process-kind tag that names no kernel variant.
    InvalidProcessKind,
    /// The result buffer could not be mapped or read back.
    ReadbackFailure,
}

impl CoreError {
    /// A short human-readable description.
    pub fn message(&self) -> (r: &'static str) {
        match self {
            CoreError::ReferenceDataUnavailable => "reference data unavailable",
            CoreError::MalformedInput => "malformed input",
            CoreError::DeviceUnavailable => "no compatible GPU device",
            CoreError::InvalidProcessKind => "invalid process kind",
            CoreError::ReadbackFailure => "result readback failed",
        }
    }
}

} // verus!
