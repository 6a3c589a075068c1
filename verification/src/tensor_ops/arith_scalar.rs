//! Elementwise arithmetic with a constant.
use crate::scalar::Binary32;
use crate::tape::{BackwardOp, Step};
use crate::tensor::{extended, Tensor, TensorModel};
use vstd::prelude::*;

verus! {

impl TensorModel {
    /// Every element plus `val`; the gradient passes through unchanged.
    pub open spec fn scalar_added(self, val: Binary32) -> TensorModel {
        TensorModel {
            dims: self.dims,
            values: Seq::new(self.values.len(), |i: int| self.values[i].plus(val)),
            tape: self.recorded(Step::Carry { len: self.values.len() as usize }),
        }
    }

    /// Every element minus `val`; the gradient passes through unchanged.
    pub open spec fn scalar_subtracted(self, val: Binary32) -> TensorModel {
        TensorModel {
            dims: self.dims,
            values: Seq::new(self.values.len(), |i: int| self.values[i].minus(val)),
            tape: self.recorded(Step::Carry { len: self.values.len() as usize }),
        }
    }

    /// Every element times `val`; the gradient is multiplied by `val`.
    pub open spec fn scalar_multiplied(self, val: Binary32) -> TensorModel {
        TensorModel {
            dims: self.dims,
            values: Seq::new(self.values.len(), |i: int| self.values[i].times(val)),
            tape: self.recorded(Step::Scale { len: self.values.len() as usize, factor: val }),
        }
    }

    /// Every element divided by `val`; the gradient is divided by `val`.
    pub open spec fn scalar_divided(self, val: Binary32) -> TensorModel {
        TensorModel {
            dims: self.dims,
            values: Seq::new(self.values.len(), |i: int| self.values[i].over(val)),
            tape: self.recorded(Step::Shrink { len: self.values.len() as usize, divisor: val }),
        }
    }
}

/// Adds `val` to all elements of `t`.
pub fn scalar_add(t: Tensor, val: Binary32) -> (r: Tensor)
    ensures
        r@ == t@.scalar_added(val),
{
    let (dims, data, tape) = t.into_parts();
    let mut out: Vec<Binary32> = Vec::new();
    let mut i: usize = 0;
    while i < data.len()
        invariant
            i <= data.len(),
            out@ == Seq::new(i as nat, |j: int| data@[j].plus(val)),
        decreases data.len() - i,
    {
        out.push(data[i].plus(val));
        i = i + 1;
        assert(out@ =~= Seq::new(i as nat, |j: int| data@[j].plus(val)));
    }
    let tape = extended(tape, BackwardOp::Carry { len: data.len() });
    Tensor::from_parts(dims, out, tape)
}

/// Subtracts `val` from all elements of `t`.
pub fn scalar_sub(t: Tensor, val: Binary32) -> (r: Tensor)
    ensures
        r@ == t@.scalar_subtracted(val),
{
    let (dims, data, tape) = t.into_parts();
    let mut out: Vec<Binary32> = Vec::new();
    let mut i: usize = 0;
    while i < data.len()
        invariant
            i <= data.len(),
            out@ == Seq::new(i as nat, |j: int| data@[j].minus(val)),
        decreases data.len() - i,
    {
        out.push(data[i].minus(val));
        i = i + 1;
        assert(out@ =~= Seq::new(i as nat, |j: int| data@[j].minus(val)));
    }
    let tape = extended(tape, BackwardOp::Carry { len: data.len() });
    Tensor::from_parts(dims, out, tape)
}

/// Multiplies all elements of `t` by `val`.
pub fn scalar_mul(t: Tensor, val: Binary32) -> (r: Tensor)
    ensures
        r@ == t@.scalar_multiplied(val),
{
    let (dims, data, tape) = t.into_parts();
    let mut out: Vec<Binary32> = Vec::new();
    let mut i: usize = 0;
    while i < data.len()
        invariant
            i <= data.len(),
            out@ == Seq::new(i as nat, |j: int| data@[j].times(val)),
        decreases data.len() - i,
    {
        out.push(data[i].times(val));
        i = i + 1;
        assert(out@ =~= Seq::new(i as nat, |j: int| data@[j].times(val)));
    }
    let tape = extended(tape, BackwardOp::Scale { len: data.len(), factor: val });
    Tensor::from_parts(dims, out, tape)
}

/// Divides all elements of `t` by `val`. A zero `val` is no error: the
/// elements become infinities or NaNs.
pub fn scalar_div(t: Tensor, val: Binary32) -> (r: Tensor)
    ensures
        r@ == t@.scalar_divided(val),
{
    let (dims, data, tape) = t.into_parts();
    let mut out: Vec<Binary32> = Vec::new();
    let mut i: usize = 0;
    while i < data.len()
        invariant
            i <= data.len(),
            out@ == Seq::new(i as nat, |j: int| data@[j].over(val)),
        decreases data.len() - i,
    {
        out.push(data[i].over(val));
        i = i + 1;
        assert(out@ =~= Seq::new(i as nat, |j: int| data@[j].over(val)));
    }
    let tape = extended(tape, BackwardOp::Shrink { len: data.len(), divisor: val });
    Tensor::from_parts(dims, out, tape)
}

/// What `add` returns is stated on the models, by the contract of the impl
/// below.
impl vstd::std_specs::ops::AddSpecImpl<Binary32> for Tensor {
    open spec fn obeys_add_spec() -> bool {
        false
    }

    open spec fn add_req(self, rhs: Binary32) -> bool {
        true
    }

    open spec fn add_spec(self, rhs: Binary32) -> Tensor {
        self
    }
}

impl core::ops::Add<Binary32> for Tensor {
    type Output = Tensor;

    /// Calls [`scalar_add`]: implements `t + val`.
    fn add(self, rhs: Binary32) -> (r: Tensor)
        ensures
            r@ == self@.scalar_added(rhs),
    {
        scalar_add(self, rhs)
    }
}

/// What `sub` returns is stated on the models, by the contract of the impl
/// below.
impl vstd::std_specs::ops::SubSpecImpl<Binary32> for Tensor {
    open spec fn obeys_sub_spec() -> bool {
        false
    }

    open spec fn sub_req(self, rhs: Binary32) -> bool {
        true
    }

    open spec fn sub_spec(self, rhs: Binary32) -> Tensor {
        self
    }
}

impl core::ops::Sub<Binary32> for Tensor {
    type Output = Tensor;

    /// Calls [`scalar_sub`]: implements `t - val`.
    fn sub(self, rhs: Binary32) -> (r: Tensor)
        ensures
            r@ == self@.scalar_subtracted(rhs),
    {
        scalar_sub(self, rhs)
    }
}

/// What `mul` returns is stated on the models, by the contract of the impl
/// below.
impl vstd::std_specs::ops::MulSpecImpl<Binary32> for Tensor {
    open spec fn obeys_mul_spec() -> bool {
        false
    }

    open spec fn mul_req(self, rhs: Binary32) -> bool {
        true
    }

    open spec fn mul_spec(self, rhs: Binary32) -> Tensor {
        self
    }
}

impl core::ops::Mul<Binary32> for Tensor {
    type Output = Tensor;

    /// Calls [`scalar_mul`]: implements `t * val`.
    fn mul(self, rhs: Binary32) -> (r: Tensor)
        ensures
            r@ == self@.scalar_multiplied(rhs),
    {
        scalar_mul(self, rhs)
    }
}

/// What `div` returns is stated on the models, by the contract of the impl
/// below.
impl vstd::std_specs::ops::DivSpecImpl<Binary32> for Tensor {
    open spec fn obeys_div_spec() -> bool {
        false
    }

    open spec fn div_req(self, rhs: Binary32) -> bool {
        true
    }

    open spec fn div_spec(self, rhs: Binary32) -> Tensor {
        self
    }
}

impl core::ops::Div<Binary32> for Tensor {
    type Output = Tensor;

    /// Calls [`scalar_div`]: implements `t / val`.
    fn div(self, rhs: Binary32) -> (r: Tensor)
        ensures
            r@ == self@.scalar_divided(rhs),
    {
        scalar_div(self, rhs)
    }
}

} // verus!
