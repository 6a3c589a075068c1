//! The gradient store: one buffer per position of a recording, created on
//! first touch and only ever added into.
use crate::buffer::{accumulated, filled, sum_into, zeros};
use crate::scalar::Binary32;
use crate::tensor::Tensor;
use vstd::prelude::*;

verus! {

/// Gradients by position. A position holds nothing until it is first
/// touched; touching it starts it from zero.
pub struct Gradients {
    slots: Vec<Option<Vec<Binary32>>>,
}

impl View for Gradients {
    type V = Map<int, Seq<Binary32>>;

    closed spec fn view(&self) -> Map<int, Seq<Binary32>> {
        Map::new(
            |k: int| 0 <= k < self.slots@.len() && self.slots@[k] is Some,
            |k: int| self.slots@[k]->0@,
        )
    }
}

/// The buffer at `position`, or zeros of length `len` where the store holds
/// nothing there yet.
pub open spec fn slot_or_zeros(store: Map<int, Seq<Binary32>>, position: int, len: nat) -> Seq<
    Binary32,
> {
    if store.contains_key(position) {
        store[position]
    } else {
        zeros(len)
    }
}

impl Gradients {
    /// A store that holds nothing.
    pub fn new() -> (grads: Gradients)
        ensures
            grads@ == Map::<int, Seq<Binary32>>::empty(),
    {
        let grads = Gradients { slots: Vec::new() };
        assert(grads@ =~= Map::<int, Seq<Binary32>>::empty());
        grads
    }

    /// The gradient at `position`, if the store holds one.
    pub fn gradient(&self, position: usize) -> (r: Option<&Vec<Binary32>>)
        ensures
            r is Some <==> self@.contains_key(position as int),
            r matches Some(values) ==> values@ == self@[position as int],
    {
        if position < self.slots.len() {
            match &self.slots[position] {
                Some(values) => Some(values),
                None => None,
            }
        } else {
            None
        }
    }

    /// The gradient of `tensor`, looked up by its position in the recording
    /// the store came from.
    pub fn ref_gradient(&self, tensor: &Tensor) -> (r: &Vec<Binary32>)
        requires
            self@.contains_key(tensor@.position()),
        ensures
            r@ == self@[tensor@.position()],
    {
        self.gradient(tensor.position()).unwrap()
    }

    /// Makes room for `position`.
    fn reserve(&mut self, position: usize)
        ensures
            final(self)@ == old(self)@,
            final(self).slots@.len() > position,
    {
        while self.slots.len() <= position
            invariant
                self@ =~= old(self)@,
            decreases position + 1 - self.slots@.len(),
        {
            self.slots.push(None);
        }
    }

    /// Overwrites the gradient at `position` with `values`.
    pub fn set_gradient(&mut self, position: usize, values: Vec<Binary32>)
        ensures
            final(self)@ == old(self)@.insert(position as int, values@),
    {
        self.reserve(position);
        let ghost before = self@;
        self.slots.set(position, Some(values));
        assert(self@ =~= before.insert(position as int, values@));
    }

    /// Adds `contribution` into the gradient at `position`, which starts
    /// from zero if the store holds nothing there yet.
    pub fn accumulate(&mut self, position: usize, contribution: &Vec<Binary32>)
        requires
            old(self)@.contains_key(position as int) ==> old(self)@[position as int].len()
                == contribution@.len(),
        ensures
            final(self)@ == old(self)@.insert(
                position as int,
                accumulated(
                    slot_or_zeros(old(self)@, position as int, contribution@.len()),
                    contribution@,
                ),
            ),
    {
        let sum = match self.gradient(position) {
            Some(slot) => sum_into(slot, contribution),
            None => {
                let fresh = filled(contribution.len(), Binary32::zero());
                sum_into(&fresh, contribution)
            },
        };
        self.set_gradient(position, sum);
    }
}

} // verus!
