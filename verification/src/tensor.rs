//! The tensor value: a shape, a dense row-major buffer and a tape mode.
use crate::buffer::{constant, copied, filled, zeros};
use crate::gradients::Gradients;
use crate::scalar::Binary32;
use crate::shape::{checked_numel, copy_dims, lemma_extent_positive, numel, shape_ok};
use crate::tape::{chained, delivers, swept, BackwardOp, Step, Tape};
use vstd::prelude::*;

verus! {

/// Whether operations on a tensor are recorded.
pub enum TapeMode {
    /// Nothing is recorded and no backward pass is possible.
    Inert,
    /// Every operation appends one record to the tape.
    Tracking(Tape),
}

impl View for TapeMode {
    type V = Option<Seq<Step>>;

    open spec fn view(&self) -> Option<Seq<Step>> {
        match *self {
            TapeMode::Inert => None,
            TapeMode::Tracking(tape) => Some(tape@),
        }
    }
}

/// A tensor as a mathematical value: its dimensions, its elements in
/// row-major order, and the records of its recording if it is tracking.
pub struct TensorModel {
    pub dims: Seq<usize>,
    pub values: Seq<Binary32>,
    pub tape: Option<Seq<Step>>,
}

impl TensorModel {
    /// The buffer has exactly as many elements as the shape asks for, and a
    /// tape, if there is one, is chained and ends in this tensor.
    pub open spec fn wf(self) -> bool {
        &&& shape_ok(self.dims)
        &&& self.values.len() == numel(self.dims)
        &&& self.tape matches Some(steps) ==> chained(steps) && delivers(steps, self.values.len())
    }

    /// The element count of a well-formed tensor fits in `usize`.
    pub proof fn lemma_len_fits(self)
        requires
            self.wf(),
        ensures
            self.values.len() <= usize::MAX,
    {
        lemma_extent_positive(self.dims);
    }

    /// The position of the tensor in its recording: the number of records
    /// that led to it. An inert tensor is at position `0`, where it will
    /// stand as the leaf of a recording started from it.
    pub open spec fn position(self) -> int {
        match self.tape {
            Some(steps) => steps.len() as int,
            None => 0,
        }
    }

    /// The tape after an operation described by `step`: extended by one
    /// record when tracking, absent when inert.
    pub open spec fn recorded(self, step: Step) -> Option<Seq<Step>> {
        match self.tape {
            Some(steps) => Some(steps.push(step)),
            None => None,
        }
    }

    /// The same data as the leaf of a new, empty recording.
    pub open spec fn traced(self) -> TensorModel {
        TensorModel { dims: self.dims, values: self.values, tape: Some(Seq::empty()) }
    }

    /// The same data without a tape.
    pub open spec fn untraced(self) -> TensorModel {
        TensorModel { dims: self.dims, values: self.values, tape: None }
    }

    /// The gradients a backward pass from this tensor yields, by position.
    pub open spec fn gradients(self) -> Map<int, Seq<Binary32>> {
        swept(self.tape->0, seq![Binary32::one()])
    }
}

/// The model of a tensor with the given parts.
pub open spec fn parts_model(dims: Vec<usize>, data: Vec<Binary32>, tape: TapeMode) -> TensorModel {
    TensorModel { dims: dims@, values: data@, tape: tape@ }
}

/// The tape mode after one more operation: a tracking tape gets `op` as its
/// newest record, an inert one records nothing.
pub(crate) fn extended(tape: TapeMode, op: BackwardOp) -> (r: TapeMode)
    requires
        op@.wf(),
        tape@ matches Some(steps) ==> chained(steps) && delivers(steps, op@.input_len()),
    ensures
        r@ == (match tape@ {
            Some(steps) => Some(steps.push(op@)),
            None => None,
        }),
        r@ matches Some(steps) ==> chained(steps) && delivers(steps, op@.output_len()),
{
    match tape {
        TapeMode::Inert => TapeMode::Inert,
        TapeMode::Tracking(mut tape) => {
            let ghost before = tape@;
            tape.record(op);
            proof {
                let after = before.push(op@);
                assert forall|k: int| 0 <= k < after.len() implies (#[trigger] after[k]).wf() by {
                    if k < before.len() {
                        assert(after[k] == before[k]);
                    }
                }
                assert forall|k: int| 0 <= k < after.len() - 1 implies (#[trigger] after[k]).output_len()
                    == after[k + 1].input_len() by {
                    assert(after[k] == before[k]);
                    if k + 1 < before.len() {
                        assert(after[k + 1] == before[k + 1]);
                    }
                }
            }
            TapeMode::Tracking(tape)
        },
    }
}

/// A dense tensor of at most four axes together with its tape mode.
pub struct Tensor {
    dims: Vec<usize>,
    data: Vec<Binary32>,
    tape: TapeMode,
}

impl View for Tensor {
    type V = TensorModel;

    closed spec fn view(&self) -> TensorModel {
        parts_model(self.dims, self.data, self.tape)
    }
}

impl Tensor {
    #[verifier::type_invariant]
    spec fn inv(self) -> bool {
        parts_model(self.dims, self.data, self.tape).wf()
    }

    /// Puts a tensor together from parts that fit.
    pub(crate) fn from_parts(dims: Vec<usize>, data: Vec<Binary32>, tape: TapeMode) -> (t: Tensor)
        requires
            parts_model(dims, data, tape).wf(),
        ensures
            t@ == parts_model(dims, data, tape),
    {
        Tensor { dims, data, tape }
    }

    /// Takes a tensor apart.
    pub(crate) fn into_parts(self) -> (parts: (Vec<usize>, Vec<Binary32>, TapeMode))
        ensures
            self@ == parts_model(parts.0, parts.1, parts.2),
            self@.wf(),
    {
        proof {
            use_type_invariant(&self);
        }
        (self.dims, self.data, self.tape)
    }

    /// An inert tensor with the given dimensions and row-major elements.
    /// `None` when the shape is not accepted or `data` has another length
    /// than the shape asks for.
    pub fn new(dims: Vec<usize>, data: Vec<Binary32>) -> (r: Option<Tensor>)
        ensures
            r is Some <==> shape_ok(dims@) && data@.len() == numel(dims@),
            r matches Some(t) ==> t@ == (TensorModel { dims: dims@, values: data@, tape: None }),
    {
        match checked_numel(&dims) {
            Some(n) => {
                if data.len() == n {
                    Some(Tensor { dims, data, tape: TapeMode::Inert })
                } else {
                    None
                }
            },
            None => None,
        }
    }

    /// An inert tensor whose elements all equal `value`. `None` when the
    /// shape is not accepted.
    pub fn filled(dims: Vec<usize>, value: Binary32) -> (r: Option<Tensor>)
        ensures
            r is Some <==> shape_ok(dims@),
            r matches Some(t) ==> t@ == (TensorModel {
                dims: dims@,
                values: constant(numel(dims@), value),
                tape: None,
            }),
    {
        match checked_numel(&dims) {
            Some(n) => {
                let data = filled(n, value);
                Some(Tensor { dims, data, tape: TapeMode::Inert })
            },
            None => None,
        }
    }

    /// An inert tensor of zeros. `None` when the shape is not accepted.
    pub fn zeros(dims: Vec<usize>) -> (r: Option<Tensor>)
        ensures
            r is Some <==> shape_ok(dims@),
            r matches Some(t) ==> t@ == (TensorModel {
                dims: dims@,
                values: zeros(numel(dims@)),
                tape: None,
            }),
    {
        Tensor::filled(dims, Binary32::zero())
    }

    /// An inert tensor of ones. `None` when the shape is not accepted.
    pub fn ones(dims: Vec<usize>) -> (r: Option<Tensor>)
        ensures
            r is Some <==> shape_ok(dims@),
            r matches Some(t) ==> t@ == (TensorModel {
                dims: dims@,
                values: constant(numel(dims@), Binary32::one()),
                tape: None,
            }),
    {
        Tensor::filled(dims, Binary32::one())
    }

    /// The inert tensor without axes that holds `value`.
    pub fn scalar(value: Binary32) -> (t: Tensor)
        ensures
            t@ == (TensorModel { dims: Seq::empty(), values: seq![value], tape: None }),
    {
        let dims: Vec<usize> = Vec::new();
        let mut data: Vec<Binary32> = Vec::new();
        data.push(value);
        assert(dims@ =~= Seq::<usize>::empty());
        assert(data@ =~= seq![value]);
        Tensor { dims, data, tape: TapeMode::Inert }
    }

    /// The dimensions, outermost first.
    pub fn dims(&self) -> (r: &Vec<usize>)
        ensures
            r@ == self@.dims,
            self@.wf(),
    {
        proof {
            use_type_invariant(self);
        }
        &self.dims
    }

    /// The elements in row-major order.
    pub fn data(&self) -> (r: &Vec<Binary32>)
        ensures
            r@ == self@.values,
            self@.wf(),
    {
        proof {
            use_type_invariant(self);
        }
        &self.data
    }

    /// Whether operations on this tensor are recorded.
    pub fn is_tracking(&self) -> (r: bool)
        ensures
            r == self@.tape is Some,
    {
        match &self.tape {
            TapeMode::Inert => false,
            TapeMode::Tracking(_) => true,
        }
    }

    /// The position of this tensor in its recording.
    pub fn position(&self) -> (r: usize)
        ensures
            r == self@.position(),
    {
        match &self.tape {
            TapeMode::Inert => 0,
            TapeMode::Tracking(tape) => tape.len(),
        }
    }

    /// A tracking copy of this tensor's data: the leaf of a new recording.
    pub fn trace(&self) -> (t: Tensor)
        ensures
            t@ == self@.traced(),
    {
        proof {
            use_type_invariant(self);
        }
        let dims = copy_dims(&self.dims);
        let data = copied(&self.data);
        Tensor { dims, data, tape: TapeMode::Tracking(Tape::new()) }
    }

    /// The same tensor without its tape.
    pub fn untrace(self) -> (t: Tensor)
        ensures
            t@ == self@.untraced(),
    {
        proof {
            use_type_invariant(&self);
        }
        Tensor { dims: self.dims, data: self.data, tape: TapeMode::Inert }
    }

    /// The terminal backward pass. On a tracking tensor without axes it
    /// seeds the gradient of this tensor with one, runs the records of the
    /// tape newest first, and returns the gradient of every position of the
    /// recording. On any other tensor there is nothing to run.
    pub fn backward(self) -> (r: Option<Gradients>)
        ensures
            r is Some <==> self@.tape is Some && self@.dims.len() == 0,
            r matches Some(grads) ==> grads@ == self@.gradients(),
    {
        proof {
            use_type_invariant(&self);
        }
        if self.dims.len() != 0 {
            return None;
        }
        match self.tape {
            TapeMode::Inert => None,
            TapeMode::Tracking(tape) => {
                let mut top: Vec<Binary32> = Vec::new();
                top.push(Binary32::one());
                assert(top@ =~= seq![Binary32::one()]);
                assert(numel(self.dims@) == 1);
                Some(tape.execute(top))
            },
        }
    }
}

} // verus!
