use gradtape::{mean, pointwise, Binary32, Indices, Select1, Tensor, TensorError};
use rand::thread_rng;
use rand_distr::{Distribution, StandardNormal};

fn b(x: f32) -> Binary32 {
    Binary32::from_bits(x.to_bits())
}

fn floats(values: &Vec<Binary32>) -> Vec<f32> {
    values.iter().map(|v| f32::from_bits(v.to_bits())).collect()
}

fn tensor(dims: Vec<usize>, values: &[f32]) -> Tensor {
    Tensor::new(dims, values.iter().map(|v| b(*v)).collect()).unwrap()
}

fn exp(t: Tensor) -> Tensor {
    let values: Vec<Binary32> = floats(t.data()).iter().map(|v| b(v.exp())).collect();
    let slopes = values.clone();
    pointwise(t, values, slopes).unwrap()
}

fn randn(len: usize) -> Vec<f32> {
    let mut rng = thread_rng();
    (0..len).map(|_| StandardNormal.sample(&mut rng)).collect()
}

fn one(index: usize) -> Indices {
    Indices::Single(vec![index])
}

fn many(width: usize, values: &[usize]) -> Indices {
    Indices::Multiple {
        width,
        values: values.to_vec(),
    }
}

#[test]
fn test_valid_selects_1d() {
    let zeros = Tensor::zeros(vec![5]).unwrap();
    let r = zeros.trace().select(&one(0), -1).unwrap();
    assert_eq!(r.dims(), &Vec::<usize>::new());
    let r = zeros.trace().select(&many(3, &[1, 2, 3]), -1).unwrap();
    assert_eq!(r.dims(), &vec![3]);
    let r = zeros
        .trace()
        .select(&many(10, &[0, 1, 2, 3, 4, 0, 1, 2, 3, 4]), -1)
        .unwrap();
    assert_eq!(r.dims(), &vec![10]);
}

#[test]
fn test_select_1d_backward() {
    let values = randn(5);
    let t = tensor(vec![5], &values);
    let r = t.trace().select(&one(0), -1).unwrap();
    assert_eq!(floats(r.data()), [values[0]]);
    let g = mean(exp(r)).backward().unwrap();
    assert_eq!(
        floats(g.ref_gradient(&t)),
        [values[0].exp(), 0.0, 0.0, 0.0, 0.0]
    );
}

#[test]
fn test_select_1d_less_backward() {
    let values = randn(5);
    let t = tensor(vec![5], &values);
    let r = t.trace().select(&many(2, &[0, 3]), -1).unwrap();
    assert_eq!(floats(r.data()), [values[0], values[3]]);
    let g = mean(r).backward().unwrap();
    assert_eq!(floats(g.ref_gradient(&t)), [0.5, 0.0, 0.0, 0.5, 0.0]);
}

#[test]
fn test_select_1d_more_backward() {
    let values = randn(5);
    let t = tensor(vec![5], &values);
    let _t = values.clone();
    let r = t
        .trace()
        .select(&many(8, &[0, 1, 2, 3, 4, 2, 4, 4]), -1)
        .unwrap();
    assert_eq!(
        floats(r.data()),
        [_t[0], _t[1], _t[2], _t[3], _t[4], _t[2], _t[4], _t[4]]
    );
    let g = mean(r).backward().unwrap();
    assert_eq!(
        floats(g.ref_gradient(&t)),
        [1.0 / 8.0, 1.0 / 8.0, 2.0 / 8.0, 1.0 / 8.0, 3.0 / 8.0]
    );
}

#[test]
fn test_select_last_1d() {
    let t = tensor(vec![3], &[1.0, 2.0, 3.0]);
    let r = t.trace().select(&one(2), -1).unwrap();
    assert_eq!(floats(r.data()), [3.0]);
    // the exponential makes sure the gradient of the result is used
    let gradients = exp(r).backward().unwrap();
    assert_eq!(floats(gradients.ref_gradient(&t)), [0.0, 0.0, 20.085537]);
}

#[test]
fn test_select_last_2d() {
    let t = tensor(vec![2, 3], &[1.0, 2.0, 3.0, -1.0, -2.0, -3.0]);
    let r = t.trace().select(&Indices::Single(vec![1, 2]), -1).unwrap();
    assert_eq!(r.dims(), &vec![2]);
    assert_eq!(floats(r.data()), [2.0, -3.0]);
    let gradients = mean(r).backward().unwrap();
    assert_eq!(
        floats(gradients.ref_gradient(&t)),
        [0.0, 0.5, 0.0, 0.0, 0.0, 0.5]
    );
}

#[test]
fn test_select_last_3d() {
    let t = tensor(
        vec![4, 2, 3],
        &[
            1.0, 2.0, 3.0, 4.0, 5.0, 6.0, //
            -1.0, -2.0, -3.0, -4.0, -5.0, -6.0, //
            -3.0, 2.0, -1.0, -6.0, 5.0, -4.0, //
            1.0, -2.0, 3.0, 4.0, -5.0, 6.0,
        ],
    );
    let r = t
        .trace()
        .select(&Indices::Single(vec![0, 1, 2, 2, 1, 1, 0, 0]), -1)
        .unwrap();
    assert_eq!(r.dims(), &vec![4, 2]);
    assert_eq!(
        floats(r.data()),
        [1.0, 5.0, -3.0, -6.0, 2.0, 5.0, 1.0, 4.0]
    );
    let gradients = mean(r).backward().unwrap();
    assert_eq!(
        floats(gradients.ref_gradient(&t)),
        [
            0.125, 0.0, 0.0, 0.0, 0.125, 0.0, //
            0.0, 0.0, 0.125, 0.0, 0.0, 0.125, //
            0.0, 0.125, 0.0, 0.0, 0.125, 0.0, //
            0.125, 0.0, 0.0, 0.125, 0.0, 0.0
        ]
    );
}

#[test]
fn select_with_repeats_sums_gradients() {
    let t = tensor(vec![5], &[10.0, 11.0, 12.0, 13.0, 14.0]);
    let r = t
        .trace()
        .select(&many(8, &[0, 1, 2, 3, 4, 2, 4, 4]), 0)
        .unwrap();
    assert_eq!(
        floats(r.data()),
        [10.0, 11.0, 12.0, 13.0, 14.0, 12.0, 14.0, 14.0]
    );
    let g = mean(r).backward().unwrap();
    assert_eq!(
        floats(g.ref_gradient(&t)),
        [0.125, 0.125, 0.25, 0.125, 0.375]
    );
}

#[test]
fn select_without_overlap_moves_each_gradient_to_one_place() {
    let t = tensor(vec![4], &[1.0, 2.0, 3.0, 4.0]);
    let r = t.trace().select(&many(2, &[3, 1]), -1).unwrap();
    // weights 5 and 7 as upstream gradients of the two outputs
    let weighted = pointwise(r, vec![b(0.0), b(0.0)], vec![b(5.0), b(7.0)]).unwrap();
    let g = gradtape::sum(weighted).backward().unwrap();
    assert_eq!(floats(g.ref_gradient(&t)), [0.0, 7.0, 0.0, 5.0]);
}

#[test]
fn select_with_a_permutation_and_its_inverse_is_the_identity() {
    let t = tensor(vec![2, 3], &[1.0, 2.0, 3.0, 4.0, 5.0, 6.0]);
    // rows permuted differently: (2 0 1) and (1 2 0)
    let there = many(3, &[2, 0, 1, 1, 2, 0]);
    let back = many(3, &[1, 2, 0, 2, 0, 1]);
    let once = t.trace().select(&there, -1).unwrap();
    assert_eq!(floats(once.data()), [3.0, 1.0, 2.0, 5.0, 6.0, 4.0]);
    let twice = once.select(&back, -1).unwrap();
    assert_eq!(twice.dims(), t.dims());
    assert_eq!(floats(twice.data()), floats(t.data()));
    // with a permutation the gradient of a sum is one everywhere
    let g = gradtape::sum(twice).backward().unwrap();
    assert_eq!(floats(g.ref_gradient(&t)), [1.0; 6]);
}

#[test]
fn select_along_the_first_axis() {
    let t = tensor(vec![3, 2], &[1.0, 2.0, 3.0, 4.0, 5.0, 6.0]);
    let r = t.trace().select(&one(2), 0).unwrap();
    assert_eq!(r.dims(), &vec![2]);
    assert_eq!(floats(r.data()), [5.0, 6.0]);
    let r = t.trace().select(&many(4, &[2, 0, 0, 1]), 0).unwrap();
    assert_eq!(r.dims(), &vec![4, 2]);
    assert_eq!(
        floats(r.data()),
        [5.0, 6.0, 1.0, 2.0, 1.0, 2.0, 3.0, 4.0]
    );
    let g = gradtape::sum(r).backward().unwrap();
    assert_eq!(floats(g.ref_gradient(&t)), [2.0, 2.0, 1.0, 1.0, 1.0, 1.0]);
}

#[test]
fn select_on_an_inert_tensor_records_nothing() {
    let t = tensor(vec![3], &[1.0, 2.0, 3.0]);
    let r = t.select(&many(2, &[2, 2]), -1).unwrap();
    assert!(!r.is_tracking());
    assert_eq!(r.position(), 0);
    assert_eq!(floats(r.data()), [3.0, 3.0]);
    assert!(r.backward().is_none());
}

#[test]
fn select_refuses_what_does_not_fit() {
    let t = tensor(vec![2, 3], &[1.0, 2.0, 3.0, 4.0, 5.0, 6.0]);
    assert_eq!(
        t.trace().select(&one(0), 2).err(),
        Some(TensorError::BadAxis)
    );
    assert_eq!(
        t.trace().select(&one(0), -3).err(),
        Some(TensorError::BadAxis)
    );
    // the last axis needs one index for each of the two rows
    assert_eq!(
        t.trace().select(&one(0), -1).err(),
        Some(TensorError::IndexCount)
    );
    assert_eq!(
        t.trace().select(&many(2, &[0, 1, 2]), -1).err(),
        Some(TensorError::IndexCount)
    );
    assert_eq!(
        t.trace().select(&Indices::Single(vec![0, 3]), -1).err(),
        Some(TensorError::IndexRange)
    );
    assert_eq!(
        t.trace().select(&many(1, &[2]), 0).err(),
        Some(TensorError::IndexRange)
    );
    // the count is looked at before the range
    assert_eq!(
        t.trace().select(&many(2, &[9]), 0).err(),
        Some(TensorError::IndexCount)
    );
    assert!(t.trace().select(&many(0, &[]), 0).is_ok());
}

#[test]
fn select_refuses_a_result_that_is_too_large() {
    // no indices at all, but an axis of length zero beside one of the
    // largest length: the result's shape is not accepted
    let t = Tensor::zeros(vec![0, 1]).unwrap();
    let r = t.select(&many(usize::MAX, &[]), 1);
    assert!(r.is_ok());
    let t = Tensor::zeros(vec![0, 2, 2]).unwrap();
    let r = t.select(&many(usize::MAX, &[]), 1);
    assert_eq!(r.err(), Some(TensorError::TooLarge));
}
