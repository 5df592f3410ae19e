//! The ways in which an operation of the kernel can fail.

use vstd::prelude::*;

verus! {

/// Why an operation could not produce a result.
#[derive(Clone, Copy, Debug, PartialEq, Eq, Structural)]
pub enum CovError {
    /// A raw buffer has none of the lengths accepted for the target type.
    ShapeMismatch,
    /// A pivot of the Cholesky factorisation is not strictly positive.
    NotPositiveDefinite,
    /// The shapes of the operands do not fit the operation.
    DimensionIncompatible,
}

} // verus!
