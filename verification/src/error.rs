//! The reasons for which a forest cannot be built.
use vstd::prelude::*;

verus! {

/// Why `Forest::from_slice` refused its arguments.
#[derive(Clone, Copy, Debug, PartialEq, Eq)]
pub enum Error {
    /// Fewer training points than one tree samples, or points of dimension zero.
    InsufficientTrainingData,
    /// The extension level is not below the dimension of the points.
    ExtensionLevelExceedsDimensions,
}

impl Error {
    /// A sentence for the error, fit for a log line.
    pub fn message(&self) -> (r: &'static str)
        ensures
            r@ == (match *self {
                Error::InsufficientTrainingData => "insufficient training data"@,
                Error::ExtensionLevelExceedsDimensions => "extension level exceeds dimensions"@,
            }),
    {
        match self {
            Error::InsufficientTrainingData => "insufficient training data",
            Error::ExtensionLevelExceedsDimensions => "extension level exceeds dimensions",
        }
    }
}

} // verus!
