//! Dense buffers of elements and the elementwise sums gradients are built from.
use crate::scalar::Binary32;
use vstd::prelude::*;

verus! {

/// The buffer of `len` elements that all equal `value`.
pub open spec fn constant(len: nat, value: Binary32) -> Seq<Binary32> {
    Seq::new(len, |p: int| value)
}

/// The buffer a gradient slot holds before anything was added into it.
pub open spec fn zeros(len: nat) -> Seq<Binary32> {
    constant(len, Binary32::zero())
}

/// The slot after `contribution` was added into it, element by element.
pub open spec fn accumulated(slot: Seq<Binary32>, contribution: Seq<Binary32>) -> Seq<Binary32> {
    Seq::new(contribution.len(), |p: int| slot[p].plus(contribution[p]))
}

/// A buffer of `len` copies of `value`.
pub fn filled(len: usize, value: Binary32) -> (r: Vec<Binary32>)
    ensures
        r@ == constant(len as nat, value),
{
    let mut r: Vec<Binary32> = Vec::new();
    let mut p: usize = 0;
    while p < len
        invariant
            p <= len,
            r@ == constant(p as nat, value),
        decreases len - p,
    {
        r.push(value);
        p = p + 1;
        assert(r@ =~= constant(p as nat, value));
    }
    r
}

/// A copy of `values`.
pub fn copied(values: &Vec<Binary32>) -> (r: Vec<Binary32>)
    ensures
        r@ == values@,
{
    let mut r: Vec<Binary32> = Vec::new();
    let mut p: usize = 0;
    while p < values.len()
        invariant
            p <= values.len(),
            r@ == values@.take(p as int),
        decreases values.len() - p,
    {
        r.push(values[p]);
        p = p + 1;
        assert(r@ =~= values@.take(p as int));
    }
    assert(values@.take(p as int) =~= values@);
    r
}

/// The elementwise sum `slot + contribution`.
pub fn sum_into(slot: &Vec<Binary32>, contribution: &Vec<Binary32>) -> (r: Vec<Binary32>)
    requires
        slot.len() == contribution.len(),
    ensures
        r@ == accumulated(slot@, contribution@),
{
    let mut r: Vec<Binary32> = Vec::new();
    let mut p: usize = 0;
    while p < contribution.len()
        invariant
            p <= contribution.len(),
            slot.len() == contribution.len(),
            r@ == accumulated(slot@, contribution@).take(p as int),
        decreases contribution.len() - p,
    {
        r.push(slot[p].plus(contribution[p]));
        p = p + 1;
        assert(r@ =~= accumulated(slot@, contribution@).take(p as int));
    }
    assert(accumulated(slot@, contribution@).take(p as int) =~= accumulated(
        slot@,
        contribution@,
    ));
    r
}

} // verus!
