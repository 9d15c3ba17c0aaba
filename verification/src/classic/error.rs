use vstd::prelude::*;

verus! {

/// All errors the byte-buffer API can return.
#[derive(Debug, Clone, PartialEq, Hash)]
pub enum GGRSError {
    /// A catch-all error if something breaks internally.
    GeneralFailure,
    /// The given player handle was invalid.
    InvalidHandle,
    /// The prediction threshold has been reached; no more local inputs are accepted.
    PredictionThreshold,
    /// The function is not supported by this session type.
    Unsupported,
    /// Wrong parameters for a function call, or starting a session that is already started.
    InvalidRequest,
    /// Not all players are synchronized.
    NotSynchronized,
    /// Checksums of resimulated frames do not match the checksums saved the first time.
    MismatchedChecksum,
}

impl GGRSError {
    /// A human-readable description of the error.
    pub fn message(&self) -> (r: &'static str)
        ensures
            r@ == (match *self {
                GGRSError::GeneralFailure => "General Failure. If this happens, then GGRS is faulty."@,
                GGRSError::InvalidHandle => "The player handle you provided is invalid."@,
                GGRSError::PredictionThreshold => "Prediction threshold is reached, cannot proceed without catching up."@,
                GGRSError::Unsupported => "The function you called is not supported by this session type"@,
                GGRSError::InvalidRequest => "You called the function with invalid/unexpected parameters."@,
                GGRSError::NotSynchronized => "Not all players are synchronized."@,
                GGRSError::MismatchedChecksum => "Detected checksum mismatch during rollback."@,
            }),
    {
        match self {
            GGRSError::GeneralFailure => "General Failure. If this happens, then GGRS is faulty.",
            GGRSError::InvalidHandle => "The player handle you provided is invalid.",
            GGRSError::PredictionThreshold => "Prediction threshold is reached, cannot proceed without catching up.",
            GGRSError::Unsupported => "The function you called is not supported by this session type",
            GGRSError::InvalidRequest => "You called the function with invalid/unexpected parameters.",
            GGRSError::NotSynchronized => "Not all players are synchronized.",
            GGRSError::MismatchedChecksum => "Detected checksum mismatch during rollback.",
        }
    }
}

} // verus!
