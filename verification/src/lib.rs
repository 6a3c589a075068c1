//! Reverse-mode automatic differentiation over dense tensors of IEEE 754
//! binary32 elements.
//!
//! A [`Tensor`] is a shape, a row-major buffer of [`Binary32`] elements and a
//! tape mode. Operations on a tracking tensor append one record to its tape;
//! [`Tensor::backward`] drains the tape from the last record to the first and
//! returns the accumulated [`Gradients`].
pub mod buffer;
pub mod error;
pub mod gradients;
pub mod laws;
pub mod scalar;
pub mod shape;
pub mod tape;
pub mod tensor;
pub mod tensor_ops;

pub use crate::error::TensorError;
pub use crate::gradients::Gradients;
pub use crate::scalar::Binary32;
pub use crate::tape::{BackwardOp, Tape};
pub use crate::tensor::{TapeMode, Tensor};
pub use crate::tensor_ops::arith_scalar::{scalar_add, scalar_div, scalar_mul, scalar_sub};
pub use crate::tensor_ops::impl_mean_axis::{mean, mean_axis};
pub use crate::tensor_ops::impl_sum_axis::{sum, sum_axis};
pub use crate::tensor_ops::pointwise::pointwise;
pub use crate::tensor_ops::select::{Indices, Select1};

