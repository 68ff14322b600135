use vstd::prelude::*;

verus! {

/// Why an operation of this library was rejected or failed.
#[derive(Clone, Copy, Debug, PartialEq, Eq, Structural)]
pub enum PlatformError {
    /// A byte string could not be decoded into a value.
    DeserializationError,
    /// A value could not be encoded.
    SerializationError,
    /// Inputs were structurally inconsistent: count mismatches, duplicate
    /// definitions or references, replayed issuance numbers, or unknown or
    /// already-spent inputs.
    InputsError,
    /// A signature did not verify over the signed bytes.
    SignatureError,
    /// A transfer note did not balance.
    ProofError,
    /// Durable storage failed.
    IoError,
    /// An internal consistency check failed; this signals a bug, not a
    /// legitimate rejection.
    InvariantError,
}

impl PlatformError {
    /// A short description of the error kind.
    pub fn describe(&self) -> (r: &'static str)
    {
        match self {
            PlatformError::DeserializationError => "could not deserialize object",
            PlatformError::SerializationError => "could not serialize object",
            PlatformError::InputsError => "invalid parameters",
            PlatformError::SignatureError => "invalid signature",
            PlatformError::ProofError => "transfer note does not balance",
            PlatformError::IoError => "storage failure",
            PlatformError::InvariantError => "internal invariant violated",
        }
    }
}

} // verus!
