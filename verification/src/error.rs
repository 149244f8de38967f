//! Error kinds surfaced to callers of the service operations.

use vstd::prelude::*;

verus! {

/// The failures that minting and resolution report to their callers.
#[derive(Debug, Clone, Copy, PartialEq, Eq, Structural)]
pub enum AppError {
    /// The requested shoulder is not registered.
    ShoulderNotFound,
    /// The identifier string could not be parsed.
    InvalidArk,
    /// The identifier's NAAN does not match the configured NAAN.
    InvalidNaan,
}

impl AppError {
    /// A short human-readable description of the error.
    pub fn message(&self) -> (r: &'static str)
        ensures
            match self {
                AppError::ShoulderNotFound => r@ == "Shoulder not found"@,
                AppError::InvalidArk => r@ == "Invalid ARK format"@,
                AppError::InvalidNaan => r@ == "NAAN does not match"@,
            },
    {
        match self {
            AppError::ShoulderNotFound => "Shoulder not found",
            AppError::InvalidArk => "Invalid ARK format",
            AppError::InvalidNaan => "NAAN does not match",
        }
    }
}

} // verus!
