//! The differentiable operations.
pub mod arith_scalar;
pub mod impl_mean_axis;
pub mod impl_sum_axis;
pub mod pointwise;
pub mod select;
