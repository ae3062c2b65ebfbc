//! Errors surfaced by the aggregation engine.
//!
//! The taxonomy follows the engine's failure contract: construction-time
//! column validation, per-batch arithmetic/type failures, and internal
//! contract violations that indicate a bug upstream.

use vstd::prelude::*;

verus! {

/// An error raised while building or running a grouped aggregation.
#[derive(Clone, Copy, Debug, PartialEq, Eq, Structural)]
pub enum AggregateError {
    /// A grouping or aggregated-over column index lies outside the input
    /// schema.  Raised once, when the operator is attached to its upstream.
    InvalidColumn,
    /// An arithmetic fold step received an operand incompatible with the
    /// inferred output type (e.g. text added into a SUM).
    TypeMismatch,
    /// An exact arithmetic step would exceed the representable range.
    Overflow,
    /// The operator's inferred output type cannot be computed by the exact
    /// numeric engine (floating-point columns).
    UnsupportedType,
    /// An internal contract was violated: GROUP_CONCAT diffs routed through
    /// the numeric fold path, or an input row narrower than the validated
    /// schema.
    Internal,
}

impl AggregateError {
    /// A short human-readable name for the error.
    pub fn describe(&self) -> (r: &'static str)
        ensures
            r@ == match *self {
                AggregateError::InvalidColumn => "invalid column"@,
                AggregateError::TypeMismatch => "type mismatch"@,
                AggregateError::Overflow => "overflow"@,
                AggregateError::UnsupportedType => "unsupported type"@,
                AggregateError::Internal => "internal invariant violated"@,
            },
    {
        match self {
            AggregateError::InvalidColumn => "invalid column",
            AggregateError::TypeMismatch => "type mismatch",
            AggregateError::Overflow => "overflow",
            AggregateError::UnsupportedType => "unsupported type",
            AggregateError::Internal => "internal invariant violated",
        }
    }
}

} // verus!
