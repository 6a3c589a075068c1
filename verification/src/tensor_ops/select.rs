//! Selecting elements along one axis by index.
use crate::error::TensorError;
use crate::scalar::Binary32;
use crate::shape::{
    axis_position, checked_numel, inner_of, lemma_coordinates_position, lemma_position_in_range,
    lemma_remove_axis, lemma_resize_axis, outer_of, position, resolve_axis, shape_ok, split_axis,
    with_axis, without_axis,
};
use crate::tape::{BackwardOp, Step};
use crate::tensor::{extended, Tensor, TensorModel};
use vstd::prelude::*;

verus! {

/// The indices to select along an axis, listed in row-major order of the
/// index tuples over the axes before the selected one.
pub enum Indices {
    /// One index for every such tuple: the selected axis disappears.
    Single(Vec<usize>),
    /// `width` indices for every such tuple: the selected axis gets the
    /// length `width`.
    Multiple { width: usize, values: Vec<usize> },
}

impl Indices {
    /// Whether the result keeps the selected axis.
    pub open spec fn keeps_axis(self) -> bool {
        self is Multiple
    }

    /// Number of indices for every index tuple before the axis.
    pub open spec fn width(self) -> usize {
        match self {
            Indices::Single(_) => 1,
            Indices::Multiple { width, .. } => width,
        }
    }

    /// All indices in order.
    pub open spec fn picks(self) -> Seq<usize> {
        match self {
            Indices::Single(values) => values@,
            Indices::Multiple { values, .. } => values@,
        }
    }
}

/// The input position that output position `j` copies, when `width` indices
/// `picks` are selected for every index tuple before an axis of length
/// `count` with `inner` index tuples after it.
pub open spec fn select_source(j: int, picks: Seq<usize>, count: int, width: int, inner: int) -> int {
    position(j / inner / width, picks[j / inner] as int, j % inner, count, inner)
}

impl TensorModel {
    /// For every output position of a selection along axis `k`, the input
    /// position it copies.
    pub open spec fn select_sources(self, k: int, width: usize, picks: Seq<usize>) -> Seq<usize> {
        let inner = inner_of(self.dims, k);
        Seq::new(
            picks.len() * inner,
            |j: int| select_source(j, picks, self.dims[k] as int, width as int, inner as int) as usize,
        )
    }

    /// The selection along axis `k`: every output element is a copy of the
    /// input element that `picks` addresses for it.
    pub open spec fn selected(self, k: int, keep: bool, width: usize, picks: Seq<usize>) -> TensorModel {
        let sources = self.select_sources(k, width, picks);
        TensorModel {
            dims: if keep {
                self.dims.update(k, width)
            } else {
                self.dims.remove(k)
            },
            values: Seq::new(sources.len(), |j: int| self.values[sources[j] as int]),
            tape: self.recorded(Step::Gather { len: self.values.len() as usize, sources }),
        }
    }

    /// Why a selection is refused, if it is: the first that applies of a
    /// missing axis, a number of indices other than `width` for each index
    /// tuple before the axis, an index outside the axis, and a result shape
    /// that is not accepted.
    pub open spec fn select_refusal(
        self,
        axis: int,
        keep: bool,
        width: usize,
        picks: Seq<usize>,
    ) -> Option<TensorError> {
        match axis_position(self.dims.len(), axis) {
            None => Some(TensorError::BadAxis),
            Some(k) => {
                if picks.len() != outer_of(self.dims, k as int) * width {
                    Some(TensorError::IndexCount)
                } else if exists|j: int| 0 <= j < picks.len() && #[trigger] picks[j] >= self.dims[k as int] {
                    Some(TensorError::IndexRange)
                } else if keep && !shape_ok(self.dims.update(k as int, width)) {
                    Some(TensorError::TooLarge)
                } else {
                    None
                }
            },
        }
    }
}

/// Select values along a single axis, resulting in `T`.
pub trait Select1<T> {
    type Indices;

    /// Select sub elements using [`Self::Indices`] along the axis that
    /// `axis` names. The same element can be selected multiple times.
    fn select(self, indices: &Self::Indices, axis: isize) -> Result<T, TensorError>;
}

impl Select1<Tensor> for Tensor {
    type Indices = Indices;

    /// Copies, for every output position, the element that `indices`
    /// addresses along the axis; an index outside the axis is refused.
    fn select(self, indices: &Indices, axis: isize) -> (r: Result<Tensor, TensorError>)
        ensures
            match self@.select_refusal(
                axis as int,
                indices.keeps_axis(),
                indices.width(),
                indices.picks(),
            ) {
                Some(refusal) => r matches Err(e) && e == refusal,
                None => r matches Ok(s) && s@ == self@.selected(
                    axis_position(self@.dims.len(), axis as int)->0 as int,
                    indices.keeps_axis(),
                    indices.width(),
                    indices.picks(),
                ),
            },
    {
        let (dims, data, tape) = self.into_parts();
        let k = match resolve_axis(dims.len(), axis) {
            Some(k) => k,
            None => {
                return Err(TensorError::BadAxis);
            },
        };
        let (outer, count, inner) = split_axis(&dims, k);
        assert(data.len() == outer * count * inner);
        let (keep, width, picks): (bool, usize, &Vec<usize>) = match indices {
            Indices::Single(values) => (false, 1, values),
            Indices::Multiple { width, values } => (true, *width, values),
        };
        assert(keep == indices.keeps_axis() && width == indices.width() && picks@
            == indices.picks());
        let given: usize = picks.len();
        let rows_fit = match outer.checked_mul(width) {
            Some(rows) => rows == given,
            None => false,
        };
        if !rows_fit {
            return Err(TensorError::IndexCount);
        }
        let mut outside = false;
        let mut j: usize = 0;
        while j < picks.len()
            invariant
                j <= picks.len(),
                outside <==> exists|q: int| 0 <= q < j && #[trigger] picks@[q] >= count,
            decreases picks.len() - j,
        {
            if picks[j] >= count {
                outside = true;
            }
            j = j + 1;
        }
        if outside {
            return Err(TensorError::IndexRange);
        }
        let shape = if keep {
            with_axis(&dims, k, width)
        } else {
            without_axis(&dims, k)
        };
        proof {
            lemma_remove_axis(dims@, k as int);
            lemma_resize_axis(dims@, k as int, width);
        }
        let total: usize = match checked_numel(&shape) {
            Some(n) => n,
            None => {
                return Err(TensorError::TooLarge);
            },
        };
        assert(total == picks.len() * inner) by (nonlinear_arith)
            requires
                total == outer * width * inner,
                width == 1 || keep,
                picks.len() == outer * width,
                !keep ==> total == outer * inner,
        ;
        let mut sources: Vec<usize> = Vec::new();
        let mut out: Vec<Binary32> = Vec::new();
        let mut j: usize = 0;
        while j < total
            invariant
                j <= total,
                total == picks.len() * inner,
                picks.len() == outer * width,
                data.len() == outer * count * inner,
                forall|q: int| 0 <= q < picks.len() ==> (#[trigger] picks@[q]) < count,
                sources@ == Seq::new(
                    j as nat,
                    |q: int|
                        select_source(q, picks@, count as int, width as int, inner as int) as usize,
                ),
                forall|q: int| 0 <= q < j ==> (#[trigger] sources@[q]) < data.len(),
                out@ == Seq::new(j as nat, |q: int| data@[sources@[q] as int]),
            decreases total - j,
        {
            proof {
                assert(inner > 0 && width > 0) by (nonlinear_arith)
                    requires
                        j < outer * width * inner,
                ;
                lemma_coordinates_position(j as int, outer as int, width as int, inner as int);
            }
            let row: usize = j / inner;
            let i: usize = j % inner;
            let o: usize = row / width;
            let pick: usize = picks[row];
            proof {
                lemma_position_in_range(
                    o as int,
                    pick as int,
                    i as int,
                    outer as int,
                    count as int,
                    inner as int,
                );
                assert(o * count <= o * count + pick && outer * count <= outer * count * inner)
                    by (nonlinear_arith)
                    requires
                        inner >= 1,
                        0 <= o * count + pick < outer * count,
                        pick >= 0,
                ;
            }
            let source: usize = (o * count + pick) * inner + i;
            let ghost before = sources@;
            sources.push(source);
            out.push(data[source]);
            j = j + 1;
            proof {
                assert(sources@ =~= Seq::new(
                    j as nat,
                    |q: int|
                        select_source(q, picks@, count as int, width as int, inner as int) as usize,
                ));
                assert forall|q: int| 0 <= q < j implies (#[trigger] sources@[q]) < data.len() by {
                    if q < j - 1 {
                        assert(sources@[q] == before[q]);
                    }
                }
                assert(out@ =~= Seq::new(j as nat, |q: int| data@[sources@[q] as int]));
            }
        }
        let op = BackwardOp::Gather { len: data.len(), sources };
        proof {
            assert(op@ == (Step::Gather { len: data.len(), sources: sources@ }));
        }
        let tape = extended(tape, op);
        Ok(Tensor::from_parts(shape, out, tape))
    }
}

} // verus!
