use gradtape::shape::{checked_numel, resolve_axis};
use gradtape::{
    pointwise, scalar_mul, sum, BackwardOp, Binary32, Gradients, Tape, Tensor,
};

fn b(x: f32) -> Binary32 {
    Binary32::from_bits(x.to_bits())
}

fn f(x: Binary32) -> f32 {
    f32::from_bits(x.to_bits())
}

fn bits(values: &[f32]) -> Vec<Binary32> {
    values.iter().map(|v| b(*v)).collect()
}

fn floats(values: &Vec<Binary32>) -> Vec<f32> {
    values.iter().map(|v| f(*v)).collect()
}

#[test]
fn binary32_arithmetic_is_exact_where_the_result_is_representable() {
    assert_eq!(f(b(1.5).plus(b(2.25))), 3.75);
    assert_eq!(f(b(1.5).minus(b(2.25))), -0.75);
    assert_eq!(f(b(1.5).times(b(2.25))), 3.375);
    assert_eq!(f(b(1.5).over(b(0.25))), 6.0);
    assert_eq!(f(Binary32::zero()), 0.0);
    assert_eq!(f(Binary32::one()), 1.0);
    assert_eq!(Binary32::one().to_bits(), 0x3f80_0000);
}

#[test]
fn binary32_arithmetic_rounds_to_nearest_even() {
    assert_eq!(f(b(1.0).over(b(3.0))), 1.0f32 / 3.0);
    assert_eq!(f(b(0.1).plus(b(0.2))), 0.1f32 + 0.2f32);
    assert_eq!(f(b(0.1).times(b(0.3))), 0.1f32 * 0.3f32);
    assert_eq!(f(b(1.0e-3).minus(b(7.0e-9))), 1.0e-3f32 - 7.0e-9f32);
    assert_eq!(f(b(16777216.0).plus(b(1.0))), 16777216.0);
    assert_eq!(f(b(3.0e38).times(b(10.0))), f32::INFINITY);
}

#[test]
fn binary32_from_count() {
    assert_eq!(f(Binary32::from_count(0)), 0.0);
    assert_eq!(f(Binary32::from_count(3)), 3.0);
    assert_eq!(f(Binary32::from_count(16777217)), 16777216.0);
    assert_eq!(f(Binary32::from_count(16777219)), 16777220.0);
    assert_eq!(f(Binary32::from_count(usize::MAX)), usize::MAX as f32);
}

#[test]
fn a_tensor_needs_a_buffer_that_fits_its_shape() {
    assert!(Tensor::new(vec![2, 3], bits(&[0.0; 6])).is_some());
    assert!(Tensor::new(vec![2, 3], bits(&[0.0; 5])).is_none());
    assert!(Tensor::new(vec![], bits(&[1.0])).is_some());
    assert!(Tensor::new(vec![], bits(&[])).is_none());
    assert!(Tensor::new(vec![2, 0, 3], bits(&[])).is_some());
    assert!(Tensor::new(vec![1, 1, 1, 1], bits(&[1.0])).is_some());
    assert!(Tensor::new(vec![1, 1, 1, 1, 1], bits(&[1.0])).is_none());
    assert!(Tensor::zeros(vec![usize::MAX, 2]).is_none());
    assert!(Tensor::zeros(vec![0, usize::MAX, 2]).is_none());
    assert!(Tensor::zeros(vec![0, usize::MAX]).is_some());
    assert!(Tensor::ones(vec![1, 2, 3, 4, 5]).is_none());
}

#[test]
fn element_counts_and_axes() {
    assert_eq!(checked_numel(&vec![]), Some(1));
    assert_eq!(checked_numel(&vec![4, 2, 3]), Some(24));
    assert_eq!(checked_numel(&vec![4, 0, 3]), Some(0));
    assert_eq!(checked_numel(&vec![1, 2, 3, 4, 5]), None);
    assert_eq!(checked_numel(&vec![usize::MAX, usize::MAX]), None);
    assert_eq!(resolve_axis(3, 0), Some(0));
    assert_eq!(resolve_axis(3, 2), Some(2));
    assert_eq!(resolve_axis(3, 3), None);
    assert_eq!(resolve_axis(3, -1), Some(2));
    assert_eq!(resolve_axis(3, -3), Some(0));
    assert_eq!(resolve_axis(3, -4), None);
    assert_eq!(resolve_axis(0, 0), None);
    assert_eq!(resolve_axis(0, -1), None);
    assert_eq!(resolve_axis(4, isize::MIN), None);
    assert_eq!(resolve_axis(4, isize::MAX), None);
}

#[test]
fn constructors_fill_the_buffer() {
    let z = Tensor::zeros(vec![2, 2]).unwrap();
    assert_eq!(floats(z.data()), [0.0; 4]);
    let o = Tensor::ones(vec![3]).unwrap();
    assert_eq!(floats(o.data()), [1.0; 3]);
    let s = Tensor::filled(vec![1, 2], b(-2.5)).unwrap();
    assert_eq!(s.dims(), &vec![1, 2]);
    assert_eq!(floats(s.data()), [-2.5; 2]);
    let c = Tensor::scalar(b(9.0));
    assert!(c.dims().is_empty());
    assert_eq!(floats(c.data()), [9.0]);
}

#[test]
fn tracking_starts_with_trace_and_ends_with_untrace() {
    let x = Tensor::new(vec![2], bits(&[1.0, 2.0])).unwrap();
    assert!(!x.is_tracking());
    let t = x.trace();
    assert!(t.is_tracking());
    assert_eq!(t.position(), 0);
    assert_eq!(floats(t.data()), [1.0, 2.0]);
    let r = scalar_mul(t, b(2.0));
    assert!(r.is_tracking());
    assert_eq!(r.position(), 1);
    let u = r.untrace();
    assert!(!u.is_tracking());
    assert_eq!(u.position(), 0);
    assert_eq!(floats(u.data()), [2.0, 4.0]);
}

#[test]
fn backward_needs_a_tracking_tensor_without_axes() {
    let x = Tensor::scalar(b(2.0));
    assert!(x.backward().is_none());
    let v = Tensor::ones(vec![2]).unwrap();
    assert!(v.trace().backward().is_none());
    let one = Tensor::ones(vec![1]).unwrap();
    assert!(one.trace().backward().is_none());
    let leaf = Tensor::scalar(b(2.0));
    let g = leaf.trace().backward().unwrap();
    assert_eq!(floats(g.ref_gradient(&leaf)), [1.0]);
    assert!(g.gradient(1).is_none());
}

#[test]
fn backward_keeps_the_gradient_of_every_position() {
    let x = Tensor::new(vec![2], bits(&[1.0, 2.0])).unwrap();
    let doubled = scalar_mul(x.trace(), b(2.0));
    let total = sum(doubled);
    assert_eq!(floats(total.data()), [6.0]);
    let g = total.backward().unwrap();
    assert_eq!(floats(g.gradient(2).unwrap()), [1.0]);
    assert_eq!(floats(g.gradient(1).unwrap()), [1.0, 1.0]);
    assert_eq!(floats(g.gradient(0).unwrap()), [2.0, 2.0]);
    assert!(g.gradient(3).is_none());
}

#[test]
fn pointwise_takes_values_and_slopes_of_the_same_length() {
    let x = Tensor::new(vec![2], bits(&[3.0, 4.0])).unwrap();
    assert!(pointwise(x.trace(), bits(&[9.0]), bits(&[6.0, 8.0])).is_none());
    assert!(pointwise(x.trace(), bits(&[9.0, 16.0]), bits(&[6.0])).is_none());
    let squared = pointwise(x.trace(), bits(&[9.0, 16.0]), bits(&[6.0, 8.0])).unwrap();
    assert_eq!(squared.dims(), &vec![2]);
    assert_eq!(floats(squared.data()), [9.0, 16.0]);
    let g = sum(squared).backward().unwrap();
    assert_eq!(floats(g.ref_gradient(&x)), [6.0, 8.0]);
    let inert = pointwise(x, bits(&[9.0, 16.0]), bits(&[6.0, 8.0])).unwrap();
    assert!(!inert.is_tracking());
}

#[test]
fn sum_of_all_elements() {
    let x = Tensor::new(vec![2, 2], bits(&[1.0, 2.0, 3.0, 4.5])).unwrap();
    let s = sum(x.trace());
    assert!(s.dims().is_empty());
    assert_eq!(floats(s.data()), [10.5]);
    let g = s.backward().unwrap();
    assert_eq!(floats(g.ref_gradient(&x)), [1.0; 4]);
    let empty = Tensor::zeros(vec![0]).unwrap();
    assert_eq!(floats(sum(empty).data()), [0.0]);
}

#[test]
fn gradients_start_from_zero_and_are_added_into() {
    let mut g = Gradients::new();
    assert!(g.gradient(0).is_none());
    g.accumulate(2, &bits(&[1.0, 2.0]));
    assert!(g.gradient(0).is_none());
    assert!(g.gradient(1).is_none());
    assert_eq!(floats(g.gradient(2).unwrap()), [1.0, 2.0]);
    g.accumulate(2, &bits(&[0.5, -2.0]));
    assert_eq!(floats(g.gradient(2).unwrap()), [1.5, 0.0]);
    g.set_gradient(2, bits(&[7.0]));
    assert_eq!(floats(g.gradient(2).unwrap()), [7.0]);
    g.set_gradient(0, bits(&[]));
    assert!(g.gradient(0).unwrap().is_empty());
}

#[test]
fn records_pull_gradients_down() {
    let up = bits(&[1.0, 2.0, 3.0]);
    assert_eq!(
        floats(&BackwardOp::Carry { len: 3 }.pull(&up)),
        [1.0, 2.0, 3.0]
    );
    let scale = BackwardOp::Scale {
        len: 3,
        factor: b(2.0),
    };
    assert_eq!(floats(&scale.pull(&up)), [2.0, 4.0, 6.0]);
    let shrink = BackwardOp::Shrink {
        len: 3,
        divisor: b(2.0),
    };
    assert_eq!(floats(&shrink.pull(&up)), [0.5, 1.0, 1.5]);
    let pointwise = BackwardOp::Pointwise {
        slopes: bits(&[3.0, 2.0, 1.0]),
    };
    assert_eq!(floats(&pointwise.pull(&up)), [3.0, 4.0, 3.0]);
    // two index tuples before the axis, three after it, the axis of length 2
    let spread = BackwardOp::Spread {
        outer: 2,
        count: 2,
        inner: 3,
    };
    let up6 = bits(&[1.0, 2.0, 3.0, 4.0, 5.0, 6.0]);
    assert_eq!(
        floats(&spread.pull(&up6)),
        [1.0, 2.0, 3.0, 1.0, 2.0, 3.0, 4.0, 5.0, 6.0, 4.0, 5.0, 6.0]
    );
    let gather = BackwardOp::Gather {
        len: 4,
        sources: vec![3, 1, 3],
    };
    assert_eq!(floats(&gather.pull(&up)), [0.0, 2.0, 0.0, 4.0]);
}

#[test]
fn scattered_gradients_are_added_in_ascending_order() {
    // (0 + 1e8) + 1 - 1e8 is 0 in binary32; another order would give 1
    let gather = BackwardOp::Gather {
        len: 1,
        sources: vec![0, 0, 0],
    };
    assert_eq!(floats(&gather.pull(&bits(&[1.0e8, 1.0, -1.0e8]))), [0.0]);
    assert_eq!(floats(&gather.pull(&bits(&[1.0e8, -1.0e8, 1.0]))), [1.0]);
}

#[test]
fn a_tape_runs_its_records_newest_first() {
    let mut tape = Tape::new();
    assert_eq!(tape.len(), 0);
    tape.record(BackwardOp::Scale {
        len: 2,
        factor: b(3.0),
    });
    tape.record(BackwardOp::Spread {
        outer: 1,
        count: 2,
        inner: 1,
    });
    tape.record(BackwardOp::Shrink {
        len: 1,
        divisor: b(4.0),
    });
    assert_eq!(tape.len(), 3);
    let g = tape.execute(bits(&[1.0]));
    assert_eq!(floats(g.gradient(3).unwrap()), [1.0]);
    assert_eq!(floats(g.gradient(2).unwrap()), [0.25]);
    assert_eq!(floats(g.gradient(1).unwrap()), [0.25, 0.25]);
    assert_eq!(floats(g.gradient(0).unwrap()), [0.75, 0.75]);
    let g = Tape::new().execute(bits(&[5.0, 6.0]));
    assert_eq!(floats(g.gradient(0).unwrap()), [5.0, 6.0]);
}
