use vstd::prelude::*;

verus! {

/// Failure of a matrix operation.
#[derive(Clone, Copy, Debug, PartialEq, Eq, Structural)]
pub enum MatrixError {
    /// The inner dimensions disagree: the left operand's column count differs
    /// from the right operand's row count, or a dot product was asked of two
    /// vectors of different lengths.
    DimensionMismatch,
    /// A reply channel closed without delivering its value: the worker that
    /// owned the task terminated abnormally.
    WorkerFailure,
}

/// Failure of a counter operation.
#[derive(Clone, Copy, Debug, PartialEq, Eq, Structural)]
pub enum MetricsError {
    /// The named counter was not registered.
    KeyNotFound,
}

} // verus!
