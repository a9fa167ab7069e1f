//! Error taxonomy of the configuration compiler.
//!
//! Every failure of the pipeline is one of these values; each compile call
//! either returns the lowered artifact in full or exactly one of them.
use vstd::prelude::*;

verus! {

/// Why the declared state list cannot be indexed at all.
#[derive(Clone, Copy, Debug, PartialEq, Eq, Structural)]
pub enum StateCountError {
    /// The program declares no states.
    NoStates,
    /// The program declares more states than fit in a one-byte index;
    /// the payload is the declared count.
    TooManyStates(usize),
}

/// Why a check's condition fields do not select exactly one condition shape.
#[derive(Clone, Copy, Debug, PartialEq, Eq, Structural)]
pub enum CheckConditionError {
    /// None of the mutually exclusive condition fields is set.
    NoCondition,
    /// More than one condition shape is set; the payload is how many.
    TooManyConditions(usize),
    /// Only one of `lower_bound` / `upper_bound` is set.
    UnmatchedBound,
}

/// Which bounded pool would overflow.
#[derive(Clone, Copy, Debug, PartialEq, Eq, Structural)]
pub enum CapacityKind {
    Checks,
    Commands,
    ChecksPerState,
    CommandsPerState,
    ObjectLength,
}

/// A fatal compile error. The pipeline short-circuits on the first one.
#[derive(Clone, Debug, PartialEq, Eq)]
pub enum Error {
    /// The state list is empty or too long.
    StateCount(StateCountError),
    /// A `transition`, `abort`, timeout or `default_state` name has no
    /// matching declared state.
    StateNotFound(String),
    /// Two declared states share a name.
    DuplicateStateName(String),
    /// A check's condition fields are malformed.
    CheckCondition(CheckConditionError),
    /// A check's condition shape is incompatible with its target metric.
    CheckTypeMismatch,
    /// A check sets both `transition` and `abort`.
    ConflictingOutcome,
    /// A bounded pool would exceed its fixed capacity (kind, limit).
    CapacityExceeded(CapacityKind, usize),
    /// A timeout's `seconds` value is not a positive finite number.
    InvalidTimeout,
}

/// Mathematical image of [`Error`]: state names become character sequences.
#[verifier::ext_equal]
pub ghost enum ErrorV {
    StateCount(StateCountError),
    StateNotFound(Seq<char>),
    DuplicateStateName(Seq<char>),
    CheckCondition(CheckConditionError),
    CheckTypeMismatch,
    ConflictingOutcome,
    CapacityExceeded(CapacityKind, usize),
    InvalidTimeout,
}

impl View for Error {
    type V = ErrorV;

    open spec fn view(&self) -> ErrorV {
        match self {
            Error::StateCount(e) => ErrorV::StateCount(*e),
            Error::StateNotFound(n) => ErrorV::StateNotFound(n@),
            Error::DuplicateStateName(n) => ErrorV::DuplicateStateName(n@),
            Error::CheckCondition(e) => ErrorV::CheckCondition(*e),
            Error::CheckTypeMismatch => ErrorV::CheckTypeMismatch,
            Error::ConflictingOutcome => ErrorV::ConflictingOutcome,
            Error::CapacityExceeded(k, l) => ErrorV::CapacityExceeded(*k, *l),
            Error::InvalidTimeout => ErrorV::InvalidTimeout,
        }
    }
}

} // verus!
