//! What holds of the operations together with the backward pass.
//!
//! A gradient slot starts from zero and every record adds into it, so the
//! gradients below are sums onto zero: `0 + g` stands where the mathematics
//! says `g`.
use crate::buffer::{accumulated, constant, zeros};
use crate::scalar::Binary32;
use crate::shape::{
    inner_of, lemma_coordinates_position, lemma_position_coordinates, lemma_position_in_range,
    lemma_split_axis, outer_of, position,
};
use crate::tape::{flow, scattered, spread_source, Step};
use crate::tensor::TensorModel;
use crate::tensor_ops::select::select_source;
use vstd::prelude::*;

verus! {

/// The gradient that reaches a tensor through one record is the record's
/// pull of the gradient of its result, added onto zero.
pub proof fn lemma_flow_through_last(before: Seq<Step>, step: Step, upstream: Seq<Binary32>)
    ensures
        flow(before.push(step), before.len() as int, upstream) == accumulated(
            zeros(step.input_len()),
            step.pull(upstream),
        ),
{
    let steps = before.push(step);
    let n = before.len() as int;
    assert(steps[n] == step);
    assert(flow(steps, n + 1, upstream) == upstream);
}

/// Adding a constant transports gradients unchanged: whatever gradient
/// `upstream` the result `t + c` has, element `p` of `t` receives
/// `upstream[p]`.
pub proof fn law_scalar_add_transports_gradient(t: TensorModel, c: Binary32, upstream: Seq<Binary32>)
    requires
        t.wf(),
        t.tape is Some,
        upstream.len() == t.values.len(),
    ensures
        ({
            let down = flow(t.scalar_added(c).tape->0, t.position(), upstream);
            &&& down.len() == t.values.len()
            &&& forall|p: int|
                0 <= p < t.values.len() ==> #[trigger] down[p] == Binary32::zero().plus(upstream[p])
        }),
{
    t.lemma_len_fits();
    lemma_flow_through_last(t.tape->0, Step::Carry { len: t.values.len() as usize }, upstream);
}

/// Subtracting a constant transports gradients unchanged, as adding one
/// does.
pub proof fn law_scalar_sub_transports_gradient(t: TensorModel, c: Binary32, upstream: Seq<Binary32>)
    requires
        t.wf(),
        t.tape is Some,
        upstream.len() == t.values.len(),
    ensures
        ({
            let down = flow(t.scalar_subtracted(c).tape->0, t.position(), upstream);
            &&& down.len() == t.values.len()
            &&& forall|p: int|
                0 <= p < t.values.len() ==> #[trigger] down[p] == Binary32::zero().plus(upstream[p])
        }),
{
    t.lemma_len_fits();
    lemma_flow_through_last(t.tape->0, Step::Carry { len: t.values.len() as usize }, upstream);
}

/// Multiplying by a constant `c` scales gradients by `c`: element `p` of
/// `t` receives `c * upstream[p]`.
pub proof fn law_scalar_mul_scales_gradient(t: TensorModel, c: Binary32, upstream: Seq<Binary32>)
    requires
        t.wf(),
        t.tape is Some,
        upstream.len() == t.values.len(),
    ensures
        ({
            let down = flow(t.scalar_multiplied(c).tape->0, t.position(), upstream);
            &&& down.len() == t.values.len()
            &&& forall|p: int|
                0 <= p < t.values.len() ==> #[trigger] down[p] == Binary32::zero().plus(
                    c.times(upstream[p]),
                )
        }),
{
    t.lemma_len_fits();
    lemma_flow_through_last(
        t.tape->0,
        Step::Scale { len: t.values.len() as usize, factor: c },
        upstream,
    );
}

/// Dividing by a constant `c` divides gradients by `c`: element `p` of `t`
/// receives `upstream[p] / c`.
pub proof fn law_scalar_div_shrinks_gradient(t: TensorModel, c: Binary32, upstream: Seq<Binary32>)
    requires
        t.wf(),
        t.tape is Some,
        upstream.len() == t.values.len(),
    ensures
        ({
            let down = flow(t.scalar_divided(c).tape->0, t.position(), upstream);
            &&& down.len() == t.values.len()
            &&& forall|p: int|
                0 <= p < t.values.len() ==> #[trigger] down[p] == Binary32::zero().plus(
                    upstream[p].over(c),
                )
        }),
{
    t.lemma_len_fits();
    lemma_flow_through_last(
        t.tape->0,
        Step::Shrink { len: t.values.len() as usize, divisor: c },
        upstream,
    );
}

/// The backward pass from `t + c`, for a tracking `t` without axes, leaves
/// the gradient one for `t`.
pub proof fn law_backward_of_scalar_add(t: TensorModel, c: Binary32)
    requires
        t.wf(),
        t.tape is Some,
        t.dims.len() == 0,
    ensures
        t.scalar_added(c).gradients()[t.position()] == seq![
            Binary32::zero().plus(Binary32::one()),
        ],
{
    let upstream = seq![Binary32::one()];
    law_scalar_add_transports_gradient(t, c, upstream);
    let down = flow(t.scalar_added(c).tape->0, t.position(), upstream);
    assert(down[0] == Binary32::zero().plus(upstream[0]));
    assert(down =~= seq![Binary32::zero().plus(Binary32::one())]);
}

/// The backward pass from `t * c`, for a tracking `t` without axes, leaves
/// the gradient `c` (times the seed one) for `t`.
pub proof fn law_backward_of_scalar_mul(t: TensorModel, c: Binary32)
    requires
        t.wf(),
        t.tape is Some,
        t.dims.len() == 0,
    ensures
        t.scalar_multiplied(c).gradients()[t.position()] == seq![
            Binary32::zero().plus(c.times(Binary32::one())),
        ],
{
    let upstream = seq![Binary32::one()];
    law_scalar_mul_scales_gradient(t, c, upstream);
    let down = flow(t.scalar_multiplied(c).tape->0, t.position(), upstream);
    assert(down[0] == Binary32::zero().plus(c.times(upstream[0])));
    assert(down =~= seq![Binary32::zero().plus(c.times(Binary32::one()))]);
}

/// A mean along an axis of length `n` hands a uniform gradient `g` of its
/// result back as `g / n` to every element of its input.
pub proof fn law_mean_axis_gradient(t: TensorModel, k: int, g: Binary32)
    requires
        t.wf(),
        t.tape is Some,
        0 <= k < t.dims.len(),
    ensures
        ({
            let mean = t.axis_averaged(k);
            let down = flow(mean.tape->0, t.position(), constant(mean.values.len(), g));
            &&& down.len() == t.values.len()
            &&& forall|p: int|
                0 <= p < t.values.len() ==> #[trigger] down[p] == Binary32::zero().plus(
                    Binary32::zero().plus(g.over(Binary32::from_count(t.dims[k]))),
                )
        }),
{
    t.lemma_len_fits();
    let before = t.tape->0;
    let n = before.len() as int;
    let outer = outer_of(t.dims, k);
    let count = t.dims[k];
    let inner = inner_of(t.dims, k);
    lemma_split_axis(t.dims, k);
    let spread = Step::Spread { outer: outer as usize, count, inner: inner as usize };
    let summed = t.axis_summed(k);
    let divisor = Binary32::from_count(count);
    let shrink = Step::Shrink { len: summed.values.len() as usize, divisor };
    let mean = t.axis_averaged(k);
    let steps = mean.tape->0;
    assert(steps == before.push(spread).push(shrink));
    let top = constant(mean.values.len(), g);
    assert(mean.values.len() == outer * inner);
    lemma_flow_through_last(before.push(spread), shrink, top);
    let mid = flow(steps, n + 1, top);
    assert(mid.len() == outer * inner);
    assert forall|q: int| 0 <= q < outer * inner implies #[trigger] mid[q] == Binary32::zero().plus(
        g.over(divisor),
    ) by {}
    assert(steps[n] == spread);
    let down = flow(steps, n, top);
    assert(down == accumulated(
        zeros(spread.input_len()),
        spread.pull(mid),
    ));
    assert(spread.input_len() == outer * count * inner);
    assert forall|p: int| 0 <= p < t.values.len() implies #[trigger] down[p] == Binary32::zero().plus(
        Binary32::zero().plus(g.over(divisor)),
    ) by {
        assert(count > 0 && inner > 0) by (nonlinear_arith)
            requires
                0 <= p < outer * count * inner,
                outer >= 0,
                count >= 0,
                inner >= 0,
        ;
        lemma_coordinates_position(p, outer as int, count as int, inner as int);
        lemma_position_in_range(
            p / (inner as int) / (count as int),
            0,
            p % (inner as int),
            outer as int,
            1,
            inner as int,
        );
        let q = spread_source(p, count as int, inner as int);
        assert(0 <= q < outer * inner);
        assert(spread.pull(mid)[p] == mid[q]);
    }
}

/// Positions that no output position copied receive nothing.
pub proof fn law_scatter_untouched(upstream: Seq<Binary32>, sources: Seq<usize>, p: int, upto: nat)
    requires
        upto <= sources.len(),
        forall|j: int| 0 <= j < upto ==> #[trigger] sources[j] != p,
    ensures
        scattered(upstream, sources, p, upto) == Binary32::zero(),
    decreases upto,
{
    if upto > 0 {
        law_scatter_untouched(upstream, sources, p, (upto - 1) as nat);
    }
}

/// Output positions that copied other input positions do not change what
/// position `p` receives.
pub proof fn lemma_scatter_skips(
    upstream: Seq<Binary32>,
    sources: Seq<usize>,
    p: int,
    from: nat,
    upto: nat,
)
    requires
        from <= upto <= sources.len(),
        forall|j: int| from <= j < upto ==> #[trigger] sources[j] != p,
    ensures
        scattered(upstream, sources, p, upto) == scattered(upstream, sources, p, from),
    decreases upto,
{
    if upto > from {
        lemma_scatter_skips(upstream, sources, p, from, (upto - 1) as nat);
    }
}

/// A position that exactly one output position `j` copied receives the
/// gradient of that output position and nothing else.
pub proof fn law_scatter_once(upstream: Seq<Binary32>, sources: Seq<usize>, p: int, j: int)
    requires
        0 <= j < sources.len(),
        sources[j] == p,
        forall|i: int| 0 <= i < sources.len() && i != j ==> #[trigger] sources[i] != p,
    ensures
        scattered(upstream, sources, p, sources.len()) == Binary32::zero().plus(upstream[j]),
{
    law_scatter_untouched(upstream, sources, p, j as nat);
    assert(scattered(upstream, sources, p, (j + 1) as nat) == Binary32::zero().plus(upstream[j]));
    lemma_scatter_skips(upstream, sources, p, (j + 1) as nat, sources.len());
}

/// A position that exactly the two output positions `j1 < j2` copied
/// receives the sum of their gradients.
pub proof fn law_scatter_twice(
    upstream: Seq<Binary32>,
    sources: Seq<usize>,
    p: int,
    j1: int,
    j2: int,
)
    requires
        0 <= j1 < j2 < sources.len(),
        sources[j1] == p,
        sources[j2] == p,
        forall|i: int| 0 <= i < sources.len() && i != j1 && i != j2 ==> #[trigger] sources[i] != p,
    ensures
        scattered(upstream, sources, p, sources.len()) == Binary32::zero().plus(upstream[j1]).plus(
            upstream[j2],
        ),
{
    law_scatter_untouched(upstream, sources, p, j1 as nat);
    assert(scattered(upstream, sources, p, (j1 + 1) as nat) == Binary32::zero().plus(upstream[j1]));
    lemma_scatter_skips(upstream, sources, p, (j1 + 1) as nat, j2 as nat);
    assert(scattered(upstream, sources, p, (j2 + 1) as nat) == Binary32::zero().plus(
        upstream[j1],
    ).plus(upstream[j2]));
    lemma_scatter_skips(upstream, sources, p, (j2 + 1) as nat, sources.len());
}

/// The backward record of a selection scatters: element `p` of the input
/// receives, added onto zero, the sum of the gradients of the output
/// positions that copied it.
pub proof fn law_select_scatters_gradient(
    t: TensorModel,
    k: int,
    keep: bool,
    width: usize,
    picks: Seq<usize>,
    upstream: Seq<Binary32>,
)
    requires
        t.wf(),
        t.tape is Some,
        0 <= k < t.dims.len(),
    ensures
        ({
            let sources = t.select_sources(k, width, picks);
            let down = flow(t.selected(k, keep, width, picks).tape->0, t.position(), upstream);
            &&& down.len() == t.values.len()
            &&& forall|p: int|
                0 <= p < t.values.len() ==> #[trigger] down[p] == Binary32::zero().plus(
                    scattered(upstream, sources, p, sources.len()),
                )
        }),
{
    let sources = t.select_sources(k, width, picks);
    t.lemma_len_fits();
    lemma_flow_through_last(
        t.tape->0,
        Step::Gather { len: t.values.len() as usize, sources },
        upstream,
    );
}

/// Selecting along an axis with indices that permute it, and then with the
/// indices of the inverse permutation, gives back the shape and the elements
/// of the tensor. For every row `r` of indices (one row per index tuple
/// before the axis and index along it), `back` undoes `there` inside the
/// block of `r`.
pub proof fn law_select_round_trip(t: TensorModel, k: int, there: Seq<usize>, back: Seq<usize>)
    requires
        t.wf(),
        0 <= k < t.dims.len(),
        there.len() == outer_of(t.dims, k) * t.dims[k],
        back.len() == there.len(),
        forall|r: int| 0 <= r < there.len() ==> #[trigger] there[r] < t.dims[k],
        forall|r: int|
            0 <= r < back.len() ==> #[trigger] back[r] < t.dims[k] && there[(r / (t.dims[k] as int))
                * t.dims[k] + back[r]] == r % (t.dims[k] as int),
    ensures
        ({
            let n = t.dims[k];
            let once = t.selected(k, true, n, there);
            let twice = once.selected(k, true, n, back);
            &&& t.select_refusal(k, true, n, there) is None
            &&& once.select_refusal(k, true, n, back) is None
            &&& twice.dims == t.dims
            &&& twice.values == t.values
        }),
{
    t.lemma_len_fits();
    let n = t.dims[k];
    let count = n as int;
    let outer = outer_of(t.dims, k) as int;
    let inner = inner_of(t.dims, k) as int;
    lemma_split_axis(t.dims, k);
    assert(t.dims.update(k, n) =~= t.dims);
    let once = t.selected(k, true, n, there);
    let twice = once.selected(k, true, n, back);
    let first = t.select_sources(k, n, there);
    let second = once.select_sources(k, n, back);
    assert(first.len() == outer * count * inner);
    assert(second.len() == outer * count * inner);
    assert(twice.values.len() == t.values.len());
    assert forall|j: int| 0 <= j < t.values.len() implies twice.values[j] == t.values[j] by {
        assert(count > 0 && inner > 0) by (nonlinear_arith)
            requires
                0 <= j < outer * count * inner,
                outer >= 0,
                count >= 0,
                inner >= 0,
        ;
        lemma_coordinates_position(j, outer, count, inner);
        let row = j / inner;
        let o = row / count;
        let a = row % count;
        let i = j % inner;
        let b = back[row] as int;
        // the position the second selection reads in the first one's result
        let mid = select_source(j, back, count, count, inner);
        assert(mid == position(o, b, i, count, inner));
        lemma_position_in_range(o, b, i, outer, count, inner);
        lemma_position_coordinates(o, b, i, count, inner);
        assert(second[j] == mid);
        // the position the first selection reads in the tensor
        let origin = select_source(mid, there, count, count, inner);
        assert(mid / inner == o * count + b);
        assert(there[o * count + b] == a);
        assert(origin == position(o, a, i, count, inner));
        assert(origin == j);
        assert(first[mid] == origin);
        assert(once.values[mid] == t.values[origin]);
        assert(twice.values[j] == once.values[second[j] as int]);
    }
    assert(twice.values =~= t.values);
}

} // verus!
