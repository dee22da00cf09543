//! The errors of this library.
use vstd::prelude::*;

verus! {

/// The ways in which a computation of this library can fail.
#[derive(Clone, Copy, Debug, PartialEq, Eq, Structural)]
pub enum MCDMRSError {
    /// Arrays that must share a length (criteria arrays, matrix rows,
    /// flow vectors) do not.
    DimensionMismatch,
    /// A preference function name is none of the five known shapes.
    UnknownPreferenceFunction,
    /// Fewer than two alternatives, or thresholds that a shape divides by
    /// are degenerate (`p <= q` for `vshape2`, `p <= 0` for `vshape`).
    DegenerateInput,
    /// A weight is negative, or a matrix value lies beyond
    /// [`crate::types::VALUE_LIMIT`].
    OutOfRange,
    /// Comma-separated text has no header line or a record whose field
    /// count differs from the header's, or a table lacks a column asked for.
    MalformedTable,
    /// Text that is not a decimal number.
    InvalidNumber,
}

impl MCDMRSError {
    /// A human-readable description of the error.
    pub fn message(&self) -> String {
        match self {
            MCDMRSError::DimensionMismatch => "ERROR: inputs must be of same length".to_string(),
            MCDMRSError::UnknownPreferenceFunction => "ERROR: invalid preference function".to_string(),
            MCDMRSError::DegenerateInput => "ERROR: degenerate input".to_string(),
            MCDMRSError::OutOfRange => "ERROR: value out of range".to_string(),
            MCDMRSError::MalformedTable => "ERROR: malformed table".to_string(),
            MCDMRSError::InvalidNumber => "ERROR: not a decimal number".to_string(),
        }
    }
}

} // verus!
