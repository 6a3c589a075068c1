//! Sums along one axis and over all elements.
use crate::error::TensorError;
use crate::scalar::Binary32;
use crate::shape::{
    axis_position, inner_of, lemma_coordinates_position, lemma_position_in_range,
    lemma_remove_axis, outer_of, position, resolve_axis, split_axis, without_axis,
};
use crate::tape::{BackwardOp, Step};
use crate::tensor::{extended, Tensor, TensorModel};
use vstd::prelude::*;

verus! {

/// The sum of the first `upto` elements along an axis of length `count`, at
/// the index tuple `o` before the axis and `i` after it: the elements are
/// added onto zero in ascending order of their index along the axis.
pub open spec fn axis_sum(
    values: Seq<Binary32>,
    o: int,
    i: int,
    count: int,
    inner: int,
    upto: nat,
) -> Binary32
    decreases upto,
{
    if upto == 0 {
        Binary32::zero()
    } else {
        axis_sum(values, o, i, count, inner, (upto - 1) as nat).plus(
            values[position(o, upto - 1, i, count, inner)],
        )
    }
}

impl TensorModel {
    /// The tensor with axis `k` summed away.
    pub open spec fn axis_summed(self, k: int) -> TensorModel {
        let outer = outer_of(self.dims, k);
        let count = self.dims[k];
        let inner = inner_of(self.dims, k);
        TensorModel {
            dims: self.dims.remove(k),
            values: Seq::new(
                outer * inner,
                |j: int|
                    axis_sum(
                        self.values,
                        j / (inner as int),
                        j % (inner as int),
                        count as int,
                        inner as int,
                        count as nat,
                    ),
            ),
            tape: self.recorded(Step::Spread { outer: outer as usize, count, inner: inner as usize }),
        }
    }

    /// The tensor without axes that holds the sum of all elements.
    pub open spec fn summed(self) -> TensorModel {
        let count = self.values.len();
        TensorModel {
            dims: Seq::empty(),
            values: seq![axis_sum(self.values, 0, 0, count as int, 1, count)],
            tape: self.recorded(Step::Spread { outer: 1, count: count as usize, inner: 1 }),
        }
    }
}

/// Sums the elements of `t` along the axis that `axis` names; the result has
/// that axis removed. A negative `axis` counts back from the innermost axis.
pub fn sum_axis(t: Tensor, axis: isize) -> (r: Result<Tensor, TensorError>)
    ensures
        match axis_position(t@.dims.len(), axis as int) {
            Some(k) => r matches Ok(s) && s@ == t@.axis_summed(k as int),
            None => r matches Err(e) && e == TensorError::BadAxis,
        },
{
    let (dims, data, tape) = t.into_parts();
    let k = match resolve_axis(dims.len(), axis) {
        Some(k) => k,
        None => {
            return Err(TensorError::BadAxis);
        },
    };
    let (outer, count, inner) = split_axis(&dims, k);
    let total: usize = outer * inner;
    assert(data.len() == outer * count * inner);
    let mut out: Vec<Binary32> = Vec::new();
    let mut j: usize = 0;
    while j < total
        invariant
            j <= total,
            total == outer * inner,
            data@.len() == outer * count * inner,
            out@ == Seq::new(
                j as nat,
                |q: int|
                    axis_sum(
                        data@,
                        q / (inner as int),
                        q % (inner as int),
                        count as int,
                        inner as int,
                        count as nat,
                    ),
            ),
        decreases total - j,
    {
        proof {
            assert(inner > 0) by (nonlinear_arith)
                requires
                    j < outer * inner,
            ;
            lemma_coordinates_position(j as int, outer as int, 1, inner as int);
        }
        let o: usize = j / inner;
        let i: usize = j % inner;
        let mut acc = Binary32::zero();
        let mut a: usize = 0;
        while a < count
            invariant
                a <= count,
                o < outer,
                i < inner,
                data@.len() == outer * count * inner,
                acc == axis_sum(data@, o as int, i as int, count as int, inner as int, a as nat),
            decreases count - a,
        {
            proof {
                lemma_position_in_range(
                    o as int,
                    a as int,
                    i as int,
                    outer as int,
                    count as int,
                    inner as int,
                );
                assert(o * count <= o * count + a && outer * count <= outer * count * inner)
                    by (nonlinear_arith)
                    requires
                        inner >= 1,
                        0 <= o * count + a < outer * count,
                        a >= 0,
                ;
            }
            let p: usize = (o * count + a) * inner + i;
            acc = acc.plus(data[p]);
            a = a + 1;
        }
        out.push(acc);
        j = j + 1;
        assert(out@ =~= Seq::new(
            j as nat,
            |q: int|
                axis_sum(
                    data@,
                    q / (inner as int),
                    q % (inner as int),
                    count as int,
                    inner as int,
                    count as nat,
                ),
        ));
    }
    let rest = without_axis(&dims, k);
    let op = BackwardOp::Spread { outer, count, inner };
    proof {
        lemma_remove_axis(dims@, k as int);
        assert(outer * count * inner == data.len());
        assert(op@ == (Step::Spread { outer, count, inner }));
    }
    let tape = extended(tape, op);
    Ok(Tensor::from_parts(rest, out, tape))
}

/// Sums all elements of `t` into a tensor without axes.
pub fn sum(t: Tensor) -> (r: Tensor)
    ensures
        r@ == t@.summed(),
{
    let (dims, data, tape) = t.into_parts();
    let count: usize = data.len();
    let mut acc = Binary32::zero();
    let mut a: usize = 0;
    while a < count
        invariant
            a <= count,
            count == data@.len(),
            acc == axis_sum(data@, 0, 0, count as int, 1, a as nat),
        decreases count - a,
    {
        assert(position(0, a as int, 0, count as int, 1) == a) by (nonlinear_arith);
        acc = acc.plus(data[a]);
        a = a + 1;
    }
    let mut out: Vec<Binary32> = Vec::new();
    out.push(acc);
    let rest: Vec<usize> = Vec::new();
    let op = BackwardOp::Spread { outer: 1, count, inner: 1 };
    proof {
        assert(out@ =~= seq![acc]);
        assert(rest@ =~= Seq::<usize>::empty());
        assert(1 * count * 1 == count) by (nonlinear_arith);
        assert(op@ == (Step::Spread { outer: 1, count, inner: 1 }));
    }
    let tape = extended(tape, op);
    Tensor::from_parts(rest, out, tape)
}

} // verus!
