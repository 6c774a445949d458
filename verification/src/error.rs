//! The library's error type: every fallible function returns
//! `Result<_, KontractError>` rather than panicking.
use vstd::prelude::*;

verus! {

/// Errors of the contract library.
#[derive(Debug, PartialEq, Eq)]
pub enum KontractError {
    /// An observable refers to an underlying that the path does not hold.
    UnknownAsset(String),
    /// An observation date outside the timeline (binary64 bit pattern).
    TimeOutOfRange(u64),
    /// A time step outside the path.
    StepOutOfRange(usize),
    /// A path whose series do not match its time grid.
    InconsistentPath(String),
    /// A (de)serialisation failure.
    Serde(String),
    /// A malformed contract.
    MalformedContract(String),
    /// A combination that the engine does not support.
    Unsupported(String),
}

impl Clone for KontractError {
    /// A copy of the error.
    fn clone(&self) -> (r: KontractError)
        ensures
            r == *self,
    {
        match self {
            KontractError::UnknownAsset(s) => KontractError::UnknownAsset(s.clone()),
            KontractError::TimeOutOfRange(t) => KontractError::TimeOutOfRange(*t),
            KontractError::StepOutOfRange(t) => KontractError::StepOutOfRange(*t),
            KontractError::InconsistentPath(s) => KontractError::InconsistentPath(s.clone()),
            KontractError::Serde(s) => KontractError::Serde(s.clone()),
            KontractError::MalformedContract(s) => KontractError::MalformedContract(s.clone()),
            KontractError::Unsupported(s) => KontractError::Unsupported(s.clone()),
        }
    }
}

} // verus!
