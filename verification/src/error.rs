//! The failure taxonomy of a manifest-producing run.

use vstd::prelude::*;

verus! {

/// Why a run could not produce (part of) a manifest.
///
/// `NoAvailableRelease` is the one failure the library itself decides;
/// the remaining variants classify failures of the caller's collaborators
/// (configuration lookup, transport, response decoding) so that every
/// stage of a run reports through one type.
#[derive(Clone, Copy, Debug, PartialEq, Eq, Structural)]
pub enum UpdateError {
    /// A required configuration value was absent.
    MissingConfig,
    /// The releases endpoint reported that the repository was not found.
    NotFound,
    /// A network request failed outright.
    Transport,
    /// A response body did not parse into the expected shape.
    Decode,
    /// No release passed the availability filter.
    NoAvailableRelease,
}

impl UpdateError {
    /// A short human-readable description, for reporting on standard error.
    pub fn describe(&self) -> (r: &'static str)
        ensures
            match self {
                UpdateError::MissingConfig => r@ == "required configuration variable is absent"@,
                UpdateError::NotFound => r@ == "releases endpoint not found"@,
                UpdateError::Transport => r@ == "network request failed"@,
                UpdateError::Decode => r@ == "response body could not be decoded"@,
                UpdateError::NoAvailableRelease => r@ == "no available release"@,
            },
    {
        match self {
            UpdateError::MissingConfig => "required configuration variable is absent",
            UpdateError::NotFound => "releases endpoint not found",
            UpdateError::Transport => "network request failed",
            UpdateError::Decode => "response body could not be decoded",
            UpdateError::NoAvailableRelease => "no available release",
        }
    }
}

} // verus!
