//! Means along one axis and over all elements: a sum followed by a division
//! by the number of elements summed.
use crate::error::TensorError;
use crate::scalar::Binary32;
use crate::shape::{axis_position, resolve_axis};
use crate::tensor::{Tensor, TensorModel};
use crate::tensor_ops::arith_scalar::scalar_div;
use crate::tensor_ops::impl_sum_axis::{sum, sum_axis};
use vstd::prelude::*;

verus! {

impl TensorModel {
    /// The tensor with axis `k` averaged away.
    pub open spec fn axis_averaged(self, k: int) -> TensorModel {
        self.axis_summed(k).scalar_divided(Binary32::from_count(self.dims[k]))
    }

    /// The tensor without axes that holds the mean of all elements.
    pub open spec fn averaged(self) -> TensorModel {
        self.summed().scalar_divided(Binary32::from_count(self.values.len() as usize))
    }
}

/// Averages the elements of `t` along the axis that `axis` names; the result
/// has that axis removed. A negative `axis` counts back from the innermost
/// axis.
pub fn mean_axis(t: Tensor, axis: isize) -> (r: Result<Tensor, TensorError>)
    ensures
        match axis_position(t@.dims.len(), axis as int) {
            Some(k) => r matches Ok(m) && m@ == t@.axis_averaged(k as int),
            None => r matches Err(e) && e == TensorError::BadAxis,
        },
{
    match resolve_axis(t.dims().len(), axis) {
        Some(k) => {
            let count: usize = t.dims()[k];
            match sum_axis(t, axis) {
                Ok(s) => Ok(scalar_div(s, Binary32::from_count(count))),
                Err(e) => Err(e),
            }
        },
        None => Err(TensorError::BadAxis),
    }
}

impl Tensor {
    /// Calls [`mean_axis`] on `self`.
    pub fn mean_axis(self, axis: isize) -> (r: Result<Tensor, TensorError>)
        ensures
            match axis_position(self@.dims.len(), axis as int) {
                Some(k) => r matches Ok(m) && m@ == self@.axis_averaged(k as int),
                None => r matches Err(e) && e == TensorError::BadAxis,
            },
    {
        mean_axis(self, axis)
    }
}

/// Averages all elements of `t` into a tensor without axes.
pub fn mean(t: Tensor) -> (r: Tensor)
    ensures
        r@ == t@.averaged(),
{
    let count: usize = t.data().len();
    scalar_div(sum(t), Binary32::from_count(count))
}

} // verus!
