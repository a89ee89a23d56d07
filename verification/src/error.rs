//! The error kinds shared by the matrix and the network.
use vstd::prelude::*;

verus! {

/// Why an operation was refused.
#[derive(Debug, Clone, Copy, PartialEq, Eq, Structural)]
pub enum Error {
    /// Two operands, or an operand and the receiver, disagree in dimension.
    ShapeMismatch,
    /// A row, a column or a range lies outside the matrix.
    IndexOutOfBounds,
    /// A network was asked for with fewer than two layers.
    Configuration,
    /// A value is not among the categories it was to be encoded by.
    InvalidCategory,
}

} // verus!
