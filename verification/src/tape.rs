//! The tape: an append-only log of backward records, run from the last
//! record to the first.
//!
//! A recording numbers its tensors by position. The leaf it started from is
//! at position `0`, and the result of record `k` is at position `k + 1`, so
//! record `k` reads the gradient at position `k + 1` and adds into the one at
//! position `k`.
use crate::buffer::{accumulated, copied, filled, zeros};
use crate::gradients::Gradients;
use crate::scalar::Binary32;
use vstd::prelude::*;

verus! {

/// What one backward record does, as a mathematical value.
pub enum Step {
    /// Adding or subtracting a constant: the gradient passes unchanged.
    Carry { len: usize },
    /// Multiplying by `factor`: the gradient is multiplied by it.
    Scale { len: usize, factor: Binary32 },
    /// Dividing by `divisor`: the gradient is divided by it.
    Shrink { len: usize, divisor: Binary32 },
    /// An elementwise function with the given local derivatives.
    Pointwise { slopes: Seq<Binary32> },
    /// Summing `count` elements along an axis with `outer` index tuples
    /// before it and `inner` after it: the gradient is broadcast back.
    Spread { outer: usize, count: usize, inner: usize },
    /// Copying input element `sources[j]` to output position `j`, from an
    /// input of `len` elements: the gradient is scattered and summed.
    Gather { len: usize, sources: Seq<usize> },
}

/// The position in the summed tensor that input position `p` contributed to.
pub open spec fn spread_source(p: int, count: int, inner: int) -> int {
    (p / inner / count) * inner + p % inner
}

/// What the output positions below `upto` that copied input position `p`
/// add up to: their upstream gradients, summed onto zero in ascending order
/// of output position.
pub open spec fn scattered(
    upstream: Seq<Binary32>,
    sources: Seq<usize>,
    p: int,
    upto: nat,
) -> Binary32
    decreases upto,
{
    if upto == 0 {
        Binary32::zero()
    } else {
        let before = scattered(upstream, sources, p, (upto - 1) as nat);
        if sources[upto - 1] == p {
            before.plus(upstream[upto - 1])
        } else {
            before
        }
    }
}

impl Step {
    /// Number of elements of the tensor the operation read.
    pub open spec fn input_len(self) -> nat {
        match self {
            Step::Carry { len } => len as nat,
            Step::Scale { len, .. } => len as nat,
            Step::Shrink { len, .. } => len as nat,
            Step::Pointwise { slopes } => slopes.len(),
            Step::Spread { outer, count, inner } => (outer * count * inner) as nat,
            Step::Gather { len, .. } => len as nat,
        }
    }

    /// Number of elements of the tensor the operation produced.
    pub open spec fn output_len(self) -> nat {
        match self {
            Step::Carry { len } => len as nat,
            Step::Scale { len, .. } => len as nat,
            Step::Shrink { len, .. } => len as nat,
            Step::Pointwise { slopes } => slopes.len(),
            Step::Spread { outer, inner, .. } => (outer * inner) as nat,
            Step::Gather { sources, .. } => sources.len(),
        }
    }

    /// The record is consistent in itself: its sizes fit in `usize` and
    /// every source position lies inside the input.
    pub open spec fn wf(self) -> bool {
        match self {
            Step::Spread { outer, count, inner } => {
                &&& outer * count * inner <= usize::MAX
                &&& outer * inner <= usize::MAX
            },
            Step::Gather { len, sources } => forall|j: int|
                0 <= j < sources.len() ==> (#[trigger] sources[j]) < len,
            _ => true,
        }
    }

    /// The operation's local derivative applied to the gradient `upstream`
    /// of its result: what the record adds into the gradient of its input.
    pub open spec fn pull(self, upstream: Seq<Binary32>) -> Seq<Binary32> {
        match self {
            Step::Carry { len } => Seq::new(len as nat, |p: int| upstream[p]),
            Step::Scale { len, factor } => Seq::new(len as nat, |p: int| factor.times(upstream[p])),
            Step::Shrink { len, divisor } => Seq::new(
                len as nat,
                |p: int| upstream[p].over(divisor),
            ),
            Step::Pointwise { slopes } => Seq::new(
                slopes.len(),
                |p: int| slopes[p].times(upstream[p]),
            ),
            Step::Spread { outer, count, inner } => Seq::new(
                (outer * count * inner) as nat,
                |p: int| upstream[spread_source(p, count as int, inner as int)],
            ),
            Step::Gather { len, sources } => Seq::new(
                len as nat,
                |p: int| scattered(upstream, sources, p, sources.len()),
            ),
        }
    }
}

/// Every record is consistent, and each one reads what the one before it
/// produced.
pub open spec fn chained(steps: Seq<Step>) -> bool {
    &&& forall|k: int| 0 <= k < steps.len() ==> (#[trigger] steps[k]).wf()
    &&& forall|k: int|
        0 <= k < steps.len() - 1 ==> (#[trigger] steps[k]).output_len() == steps[k + 1].input_len()
}

/// The last record produces `len` elements (nothing is asked of an empty
/// tape).
pub open spec fn delivers(steps: Seq<Step>, len: nat) -> bool {
    steps.len() > 0 ==> steps.last().output_len() == len
}

/// The gradient at position `k` of a recording with records `steps`, when
/// the gradient at its last position is `top`: every slot starts from zero
/// and receives what the record above it pulls down.
pub open spec fn flow(steps: Seq<Step>, k: int, top: Seq<Binary32>) -> Seq<Binary32>
    decreases steps.len() - k,
{
    if k < 0 || k >= steps.len() {
        top
    } else {
        accumulated(zeros(steps[k].input_len()), steps[k].pull(flow(steps, k + 1, top)))
    }
}

/// The gradient store a backward pass over `steps` leaves behind when it is
/// seeded with `top`: one gradient for every position of the recording.
pub open spec fn swept(steps: Seq<Step>, top: Seq<Binary32>) -> Map<int, Seq<Binary32>> {
    Map::new(|k: int| 0 <= k <= steps.len(), |k: int| flow(steps, k, top))
}

/// One backward record: the kind of operation and the forward values its
/// local derivative needs.
pub enum BackwardOp {
    Carry { len: usize },
    Scale { len: usize, factor: Binary32 },
    Shrink { len: usize, divisor: Binary32 },
    Pointwise { slopes: Vec<Binary32> },
    Spread { outer: usize, count: usize, inner: usize },
    Gather { len: usize, sources: Vec<usize> },
}

impl View for BackwardOp {
    type V = Step;

    open spec fn view(&self) -> Step {
        match *self {
            BackwardOp::Carry { len } => Step::Carry { len },
            BackwardOp::Scale { len, factor } => Step::Scale { len, factor },
            BackwardOp::Shrink { len, divisor } => Step::Shrink { len, divisor },
            BackwardOp::Pointwise { slopes } => Step::Pointwise { slopes: slopes@ },
            BackwardOp::Spread { outer, count, inner } => Step::Spread { outer, count, inner },
            BackwardOp::Gather { len, sources } => Step::Gather { len, sources: sources@ },
        }
    }
}

impl BackwardOp {
    /// Applies the record's local derivative to the gradient of its result.
    pub fn pull(&self, upstream: &Vec<Binary32>) -> (r: Vec<Binary32>)
        requires
            self@.wf(),
            upstream.len() == self@.output_len(),
        ensures
            r@ == self@.pull(upstream@),
    {
        match self {
            BackwardOp::Carry { len } => {
                let r = copied(upstream);
                assert(r@ =~= self@.pull(upstream@));
                r
            },
            BackwardOp::Scale { len, factor } => {
                let mut r: Vec<Binary32> = Vec::new();
                let mut p: usize = 0;
                while p < *len
                    invariant
                        p <= *len,
                        upstream.len() == *len,
                        r@ == Seq::new(p as nat, |q: int| factor.times(upstream@[q])),
                    decreases *len - p,
                {
                    r.push(factor.times(upstream[p]));
                    p = p + 1;
                    assert(r@ =~= Seq::new(p as nat, |q: int| factor.times(upstream@[q])));
                }
                r
            },
            BackwardOp::Shrink { len, divisor } => {
                let mut r: Vec<Binary32> = Vec::new();
                let mut p: usize = 0;
                while p < *len
                    invariant
                        p <= *len,
                        upstream.len() == *len,
                        r@ == Seq::new(p as nat, |q: int| upstream@[q].over(*divisor)),
                    decreases *len - p,
                {
                    r.push(upstream[p].over(*divisor));
                    p = p + 1;
                    assert(r@ =~= Seq::new(p as nat, |q: int| upstream@[q].over(*divisor)));
                }
                r
            },
            BackwardOp::Pointwise { slopes } => {
                let mut r: Vec<Binary32> = Vec::new();
                let mut p: usize = 0;
                while p < slopes.len()
                    invariant
                        p <= slopes.len(),
                        upstream.len() == slopes.len(),
                        r@ == Seq::new(p as nat, |q: int| slopes@[q].times(upstream@[q])),
                    decreases slopes.len() - p,
                {
                    r.push(slopes[p].times(upstream[p]));
                    p = p + 1;
                    assert(r@ =~= Seq::new(p as nat, |q: int| slopes@[q].times(upstream@[q])));
                }
                r
            },
            BackwardOp::Spread { outer, count, inner } => {
                let mut r: Vec<Binary32> = Vec::new();
                if *inner == 0 {
                    assert(*outer * *count * *inner == 0) by (nonlinear_arith)
                        requires
                            *inner == 0,
                    ;
                    assert(r@ =~= self@.pull(upstream@));
                    return r;
                }
                assert(*outer * *count <= *outer * *count * *inner) by (nonlinear_arith)
                    requires
                        *inner >= 1,
                ;
                let total: usize = *outer * *count * *inner;
                let mut p: usize = 0;
                while p < total
                    invariant
                        p <= total,
                        total == *outer * *count * *inner,
                        upstream.len() == *outer * *inner,
                        r@ == Seq::new(
                            p as nat,
                            |q: int| upstream@[spread_source(q, *count as int, *inner as int)],
                        ),
                    decreases total - p,
                {
                    proof {
                        assert(*count > 0 && *inner > 0) by (nonlinear_arith)
                            requires
                                p < *outer * *count * *inner,
                        ;
                        crate::shape::lemma_coordinates_position(
                            p as int,
                            *outer as int,
                            *count as int,
                            *inner as int,
                        );
                        crate::shape::lemma_position_in_range(
                            p as int / (*inner as int) / (*count as int),
                            0,
                            p as int % (*inner as int),
                            *outer as int,
                            1,
                            *inner as int,
                        );
                    }
                    let o: usize = p / *inner / *count;
                    let i: usize = p % *inner;
                    let source: usize = o * *inner + i;
                    r.push(upstream[source]);
                    p = p + 1;
                    assert(r@ =~= Seq::new(
                        p as nat,
                        |q: int| upstream@[spread_source(q, *count as int, *inner as int)],
                    ));
                }
                r
            },
            BackwardOp::Gather { len, sources } => {
                let mut r = filled(*len, Binary32::zero());
                let mut j: usize = 0;
                while j < sources.len()
                    invariant
                        j <= sources.len(),
                        upstream.len() == sources.len(),
                        forall|i: int| 0 <= i < sources@.len() ==> (#[trigger] sources@[i]) < *len,
                        r.len() == *len,
                        forall|p: int|
                            0 <= p < *len ==> (#[trigger] r@[p]) == scattered(
                                upstream@,
                                sources@,
                                p,
                                j as nat,
                            ),
                    decreases sources.len() - j,
                {
                    let s: usize = sources[j];
                    assert(sources@[j as int] < *len);
                    let sum = r[s].plus(upstream[j]);
                    r.set(s, sum);
                    j = j + 1;
                }
                assert(r@ =~= self@.pull(upstream@));
                r
            },
        }
    }
}

/// The log of backward records of one recording, in the order the forward
/// operations ran.
pub struct Tape {
    pub ops: Vec<BackwardOp>,
}

impl View for Tape {
    type V = Seq<Step>;

    open spec fn view(&self) -> Seq<Step> {
        Seq::new(self.ops@.len(), |k: int| self.ops@[k]@)
    }
}

impl Tape {
    /// A tape without records.
    pub fn new() -> (tape: Tape)
        ensures
            tape@ == Seq::<Step>::empty(),
    {
        let tape = Tape { ops: Vec::new() };
        assert(tape@ =~= Seq::<Step>::empty());
        tape
    }

    /// Number of records.
    pub fn len(&self) -> (n: usize)
        ensures
            n == self@.len(),
    {
        self.ops.len()
    }

    /// Appends `op` as the newest record.
    pub fn record(&mut self, op: BackwardOp)
        ensures
            final(self)@ == old(self)@.push(op@),
    {
        self.ops.push(op);
        assert(self@ =~= old(self)@.push(op@));
    }

    /// Runs every record once, newest first, on a store seeded with `top` as
    /// the gradient of the last position, and returns the store.
    pub fn execute(self, top: Vec<Binary32>) -> (grads: Gradients)
        requires
            chained(self@),
            delivers(self@, top@.len()),
        ensures
            grads@ == swept(self@, top@),
    {
        let ghost steps = self@;
        let ghost seed = top@;
        let mut ops = self.ops;
        let mut grads = Gradients::new();
        grads.set_gradient(ops.len(), top);
        while ops.len() > 0
            invariant
                ops@.len() <= steps.len(),
                chained(steps),
                delivers(steps, seed.len()),
                forall|k: int| 0 <= k < ops@.len() ==> (#[trigger] ops@[k])@ == steps[k],
                grads@.dom() =~= Set::new(|k: int| ops@.len() <= k <= steps.len()),
                forall|k: int|
                    ops@.len() <= k <= steps.len() ==> (#[trigger] grads@[k]) == flow(
                        steps,
                        k,
                        seed,
                    ),
            decreases ops@.len(),
        {
            let k: usize = ops.len() - 1;
            let op = ops.pop().unwrap();
            proof {
                assert(op@ == steps[k as int]);
                lemma_flow_len(steps, k + 1, seed);
            }
            let contribution = op.pull(grads.gradient(k + 1).unwrap());
            grads.accumulate(k, &contribution);
            proof {
                assert(grads@[k as int] =~= flow(steps, k as int, seed));
            }
        }
        assert(grads@ =~= swept(steps, seed));
        grads
    }
}

/// In a chained recording the gradient at every position has the length of
/// the tensor at that position.
pub proof fn lemma_flow_len(steps: Seq<Step>, k: int, top: Seq<Binary32>)
    requires
        chained(steps),
        delivers(steps, top.len()),
        0 <= k <= steps.len(),
    ensures
        k < steps.len() ==> flow(steps, k, top).len() == steps[k].input_len(),
        k == steps.len() ==> flow(steps, k, top) == top,
        k > 0 ==> flow(steps, k, top).len() == steps[k - 1].output_len(),
{
    if k < steps.len() {
        assert(steps[k].wf());
        if k > 0 {
            assert(steps[k - 1].output_len() == steps[k - 1 + 1].input_len());
        }
    }
}

} // verus!
