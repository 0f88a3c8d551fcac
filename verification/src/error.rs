//! Error taxonomy for the container engine.

use vstd::prelude::*;

verus! {

/// Every fallible step of the engine reports one of these variants.
/// Each carries enough text to tell a wrong file from a corrupt file
/// from a disk fault.
#[derive(Debug, Clone, PartialEq, Eq)]
pub enum BlendFileError {
    IoError(String),
    InvalidFormat(String),
    UnsupportedVersion(String),
    DnaError(String),
    BlockError(String),
    ParseError(String),
}

impl BlendFileError {
    /// The message carried by the error, whatever its variant.
    pub fn message(&self) -> (r: &String)
        ensures
            r@ == self.spec_message(),
    {
        match self {
            BlendFileError::IoError(m) => m,
            BlendFileError::InvalidFormat(m) => m,
            BlendFileError::UnsupportedVersion(m) => m,
            BlendFileError::DnaError(m) => m,
            BlendFileError::BlockError(m) => m,
            BlendFileError::ParseError(m) => m,
        }
    }

    pub open spec fn spec_message(&self) -> Seq<char> {
        match self {
            BlendFileError::IoError(m) => m@,
            BlendFileError::InvalidFormat(m) => m@,
            BlendFileError::UnsupportedVersion(m) => m@,
            BlendFileError::DnaError(m) => m@,
            BlendFileError::BlockError(m) => m@,
            BlendFileError::ParseError(m) => m@,
        }
    }
}

} // verus!
