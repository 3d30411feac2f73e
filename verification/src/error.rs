//! Failure to save the registry.

use vstd::prelude::*;

verus! {

/// `std::io::Error`, carried through unchanged.
#[verifier::external_type_specification]
#[verifier::external_body]
pub struct ExIoError(std::io::Error);

/// Why saving the registry failed.
#[derive(Debug)]
pub enum CfgError {
    /// The data file could not be opened for writing.
    OnOpen(std::io::Error),
    /// Writing the data file failed.
    OnWrite(std::io::Error),
}

impl CfgError {
    /// The underlying I/O error, whichever step failed.
    pub fn into_io_error(self) -> (e: std::io::Error)
        ensures
            e == match self {
                CfgError::OnOpen(e) => e,
                CfgError::OnWrite(e) => e,
            },
    {
        match self {
            CfgError::OnOpen(e) => e,
            CfgError::OnWrite(e) => e,
        }
    }
}

} // verus!
