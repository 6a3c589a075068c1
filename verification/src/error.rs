//! Why an operation was refused.
use vstd::prelude::*;

verus! {

/// The structural errors of the operations that take an axis or indices.
#[derive(Clone, Copy, Debug, PartialEq, Eq, Structural)]
pub enum TensorError {
    /// The tensor has no axis of that number.
    BadAxis,
    /// The number of indices does not suit the axes before the selected one.
    IndexCount,
    /// An index does not lie inside the selected axis.
    IndexRange,
    /// The result would have a shape this library does not accept.
    TooLarge,
}

} // verus!
