//! Failures that a scan can report.

use vstd::prelude::*;

verus! {

/// Why a scan could not be set up or its result could not be read.
#[derive(Clone, Copy, Debug, PartialEq, Eq, Structural)]
pub enum ScanError {
    /// A precondition on sizes was violated before any device work was issued.
    ConfigurationError,
    /// The device failed while work was outstanding.
    DeviceError,
    /// The staging buffer could not be mapped, or held no valid data.
    MappingFailure,
}

impl ScanError {
    /// A short description of the failure.
    pub fn message(&self) -> (s: &'static str)
        ensures
            (*self == ScanError::ConfigurationError) ==> s@ == "configuration error"@,
            (*self == ScanError::DeviceError) ==> s@ == "device error"@,
            (*self == ScanError::MappingFailure) ==> s@ == "mapping failure"@,
    {
        match self {
            ScanError::ConfigurationError => "configuration error",
            ScanError::DeviceError => "device error",
            ScanError::MappingFailure => "mapping failure",
        }
    }
}

} // verus!
