//! Errors raised when two tensors cannot be combined.

use vstd::prelude::*;

verus! {

/// A failed attempt to combine two values of differing extent.
///
/// Both variants report the conflicting sides so a caller can see
/// exactly where the operands disagreed.
#[derive(Debug, Clone, PartialEq)]
pub enum TensorError {
    /// The two operands' shapes differ: either the cached shapes of two
    /// tensors, or the shapes at the position where a numeric leaf met a
    /// nested sequence.
    ShapeMismatch { left_shape: Vec<usize>, right_shape: Vec<usize> },
    /// Two nested sequences at the same position have differing lengths.
    LengthMismatch { left_len: usize, right_len: usize },
}

} // verus!
