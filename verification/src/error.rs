//! Error taxonomy for the library.

use vstd::prelude::*;

verus! {

/// Errors reported by the trainer, the evaluator and the calibrator.
///
/// Degenerate metrics (a division by zero in a derived confusion-matrix
/// metric) are not errors: the metric functions return `None` for them.
#[derive(Clone, Copy, Debug, PartialEq, Eq, Structural)]
pub enum SvmError {
    /// A feature row's length disagrees with the weight vector's length.
    DimensionMismatch,
    /// Two paired sequences that must have equal length do not.
    LengthMismatch,
    /// An exact rational intermediate left the representable range.
    Overflow,
}

} // verus!
