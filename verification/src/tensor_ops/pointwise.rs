//! Elementwise functions whose values and local derivatives the caller has
//! computed.
use crate::scalar::Binary32;
use crate::tape::{BackwardOp, Step};
use crate::tensor::{extended, Tensor, TensorModel};
use vstd::prelude::*;

verus! {

impl TensorModel {
    /// The tensor of the same shape with elements `values`, reached by an
    /// elementwise function whose derivative at element `i` is `slopes[i]`.
    pub open spec fn mapped(self, values: Seq<Binary32>, slopes: Seq<Binary32>) -> TensorModel {
        TensorModel { dims: self.dims, values, tape: self.recorded(Step::Pointwise { slopes }) }
    }
}

/// Applies an elementwise function to `t`: `values[i]` is the function's
/// value at element `i` of `t` and `slopes[i]` its derivative there. `None`
/// unless both have as many elements as `t`.
pub fn pointwise(t: Tensor, values: Vec<Binary32>, slopes: Vec<Binary32>) -> (r: Option<Tensor>)
    ensures
        r is Some <==> values@.len() == t@.values.len() && slopes@.len() == t@.values.len(),
        r matches Some(m) ==> m@ == t@.mapped(values@, slopes@),
{
    let (dims, data, tape) = t.into_parts();
    if values.len() != data.len() || slopes.len() != data.len() {
        return None;
    }
    let tape = extended(tape, BackwardOp::Pointwise { slopes });
    Some(Tensor::from_parts(dims, values, tape))
}

} // verus!
