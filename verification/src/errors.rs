//! The library's error taxonomy.

use vstd::prelude::*;

verus! {

/// Every failure the library (or the I/O shell around it) can report.
///
/// Discovery failures: `DiscoveryUnavailable` (the root of the attribute
/// hierarchy could not be listed), `AttributeMissing` (a required attribute
/// file of a qualifying core was absent), `MalformedAttribute` (an attribute
/// file's text did not parse, or the parsed settings break a core invariant).
/// Mutation failures: `InvalidGovernor` and `OutOfRange` (the proposed value
/// fails validation; nothing is written), `WriteFailed` (the value was valid
/// but could not be persisted; the in-memory record is unchanged).
/// `NoChangesRequested` is the usage error of a batch that names no change.
#[derive(Clone, Copy, Debug, PartialEq, Eq, Structural)]
pub enum CoreError {
    DiscoveryUnavailable,
    AttributeMissing,
    MalformedAttribute,
    InvalidGovernor,
    OutOfRange,
    WriteFailed,
    NoChangesRequested,
}

impl CoreError {
    /// Short human-readable description of the error.
    pub fn describe(&self) -> (r: &'static str)
        ensures
            r@.len() > 0,
    {
        let r = match self {
            CoreError::DiscoveryUnavailable => "could not list the core attribute directories",
            CoreError::AttributeMissing => "a required attribute file is missing",
            CoreError::MalformedAttribute => "an attribute file does not hold the expected format",
            CoreError::InvalidGovernor => "the governor is not among the available governors",
            CoreError::OutOfRange => "the frequency is outside the valid range",
            CoreError::WriteFailed => "the attribute file could not be written",
            CoreError::NoChangesRequested => "no settings to apply were given",
        };
        proof {
            reveal_strlit("could not list the core attribute directories");
            reveal_strlit("a required attribute file is missing");
            reveal_strlit("an attribute file does not hold the expected format");
            reveal_strlit("the governor is not among the available governors");
            reveal_strlit("the frequency is outside the valid range");
            reveal_strlit("the attribute file could not be written");
            reveal_strlit("no settings to apply were given");
        }
        r
    }
}

} // verus!
