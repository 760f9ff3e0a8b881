//! Error values for every user-triggerable failure of the library.

use vstd::prelude::*;

verus! {

/// Every failure the library can report. All failures are deterministic in
/// the input state, so none is ever retried or silently repaired.
#[derive(Clone, Copy, Debug, PartialEq, Eq, Structural)]
pub enum Error {
    /// The home directory could not be determined (reported by the caller
    /// that resolves the card location).
    HomeDirNotFound,
    /// The card file is missing.
    FileDoesNotExist,
    /// The card file holds no records.
    FileIsEmpty,
    /// Punching in requires every existing record to be terminated.
    IncorrectCardStateForIn,
    /// Punching out requires an open most-recent record and terminated
    /// older records.
    IncorrectCardStateForOut,
    /// A time-interval token or granularity amount could not be parsed.
    InvalidTimeInterval,
    /// A rounding-direction token could not be parsed.
    InvalidRoundingDirection,
    /// A parsed configuration value is outside its allowed range, such as a
    /// rounding granularity of zero seconds.
    InvalidConfiguration,
}

impl Error {
    /// One actionable diagnostic line for this failure.
    pub fn message(&self) -> (m: &'static str) {
        match self {
            Error::HomeDirNotFound => "Failed to determine home directory.",
            Error::FileDoesNotExist => "File does not exist",
            Error::FileIsEmpty => "File is empty",
            Error::IncorrectCardStateForIn => "Cannot punch in. Did you punch out last time?",
            Error::IncorrectCardStateForOut => "Cannot punch out. Did you punch in before?",
            Error::InvalidTimeInterval => "Failed to parse time interval",
            Error::InvalidRoundingDirection => "Failed to parse rounding direction",
            Error::InvalidConfiguration => "Rounding granularity must be a positive number of seconds",
        }
    }
}

} // verus!
