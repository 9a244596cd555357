use wyrm::accumulator::{GradientAccumulator, GradientSink};
use wyrm::sparse::SparseGradientStore;

fn dense_sum(rows: usize, cols: usize, store: &SparseGradientStore<Vec<f32>>) -> Vec<f32> {
    let mut dense = vec![0.0f32; rows * cols];
    for (index, gradient) in store.as_slice() {
        for (k, &row) in index.iter().enumerate() {
            for c in 0..cols {
                dense[row * cols + c] += gradient[k * cols + c];
            }
        }
    }
    dense
}

#[test]
fn new_store_is_empty() {
    let store: SparseGradientStore<Vec<f32>> = SparseGradientStore::new();
    assert_eq!(store.len(), 0);
    assert!(store.as_slice().is_empty());
}

#[test]
fn push_appends_in_order() {
    let mut store = SparseGradientStore::new();
    store.push((&[4, 2], vec![1.0f32, 2.0]));
    store.push((&[7], vec![3.0f32]));
    assert_eq!(store.len(), 2);
    let held = store.as_slice();
    assert_eq!(held.len(), 2);
    assert_eq!(held[0], (vec![4, 2], vec![1.0, 2.0]));
    assert_eq!(held[1], (vec![7], vec![3.0]));
}

#[test]
fn cleared_store_uses_its_slots_again() {
    let mut store = SparseGradientStore::new();
    store.push((&[4, 2], vec![1.0f32, 2.0]));
    store.push((&[7], vec![3.0f32]));
    store.clear();
    assert_eq!(store.len(), 0);
    assert!(store.as_slice().is_empty());
    store.push((&[9, 9, 9], vec![5.0f32, 6.0, 7.0]));
    assert_eq!(store.len(), 1);
    assert_eq!(store.as_slice()[0], (vec![9, 9, 9], vec![5.0, 6.0, 7.0]));
    store.push((&[], vec![]));
    store.push((&[1], vec![8.0f32]));
    assert_eq!(store.len(), 3);
    assert_eq!(store.as_slice()[1], (vec![], vec![]));
    assert_eq!(store.as_slice()[2], (vec![1], vec![8.0]));
}

#[test]
fn contributions_can_be_changed_in_place() {
    let mut store = SparseGradientStore::new();
    store.push((&[0], vec![-5.0f32, 0.5]));
    store.push((&[1], vec![9.0f32, -0.25]));
    store.clear();
    store.push((&[3], vec![-5.0f32, 0.5]));
    for (_, gradient) in store.as_slice_mut() {
        for x in gradient.iter_mut() {
            *x = x.max(-1.0).min(1.0);
        }
    }
    assert_eq!(store.len(), 1);
    assert_eq!(store.as_slice()[0], (vec![3], vec![-1.0, 0.5]));
}

#[test]
fn two_gradients_on_disjoint_rows_are_both_kept() {
    let mut store = SparseGradientStore::new();
    store.push((&[0, 2], vec![1.0f32, 2.0, 3.0, 4.0]));
    store.push((&[1, 3], vec![5.0f32, 6.0, 7.0, 8.0]));
    assert_eq!(
        dense_sum(4, 2, &store),
        vec![1.0, 2.0, 5.0, 6.0, 3.0, 4.0, 7.0, 8.0]
    );
}

#[test]
fn two_gradients_on_shared_rows_sum_there() {
    let mut store = SparseGradientStore::new();
    store.push((&[0, 2], vec![1.0f32, 2.0, 3.0, 4.0]));
    store.push((&[2, 2], vec![10.0f32, 20.0, 30.0, 40.0]));
    assert_eq!(
        dense_sum(3, 2, &store),
        vec![1.0, 2.0, 0.0, 0.0, 43.0, 64.0]
    );
    let mut combined = SparseGradientStore::new();
    combined.push((&[0, 2], vec![1.0f32, 2.0, 43.0, 64.0]));
    assert_eq!(dense_sum(3, 2, &combined), dense_sum(3, 2, &store));
}

#[test]
fn new_accumulator_holds_nothing() {
    let store: GradientAccumulator<Vec<f32>> = GradientAccumulator::new((2, 3));
    assert_eq!(store.dense_shape, (2, 3));
    assert!(store.dense_gradient.is_none());
    assert!(!store.has_dense);
    assert_eq!(store.sparse_gradient.len(), 0);
}

fn zeros(shape: (usize, usize)) -> Vec<f32> {
    vec![0.0f32; shape.0 * shape.1]
}

fn cleared(mut buffer: Vec<f32>) -> Vec<f32> {
    buffer.iter_mut().for_each(|x| *x = 0.0);
    buffer
}

fn sum(mut buffer: Vec<f32>, gradient: &[f32]) -> Vec<f32> {
    for (x, g) in buffer.iter_mut().zip(gradient.iter()) {
        *x += g;
    }
    buffer
}

#[test]
fn dense_gradient_is_made_once() {
    let mut store: GradientAccumulator<Vec<f32>> = GradientAccumulator::new((2, 3));
    {
        let buffer = store.dense_gradient(zeros);
        assert_eq!(buffer, &vec![0.0f32; 6]);
        buffer[4] += 2.5;
    }
    assert!(!store.has_dense);
    {
        let buffer = store.dense_gradient(|_| vec![9.0f32; 1]);
        assert_eq!(buffer, &vec![0.0, 0.0, 0.0, 0.0, 2.5, 0.0]);
        buffer[4] += 1.0;
    }
    assert_eq!(
        store.dense_gradient,
        Some(vec![0.0, 0.0, 0.0, 0.0, 3.5, 0.0])
    );
}

#[test]
fn dense_gradients_are_added_and_never_assigned() {
    let mut store: GradientAccumulator<Vec<f32>> = GradientAccumulator::new((1, 2));
    store.accumulate_dense(&[1.0f32, 2.0][..], zeros, sum);
    assert!(store.has_dense);
    assert_eq!(store.dense_gradient, Some(vec![1.0, 2.0]));
    store.accumulate_dense(&[10.0f32, 20.0][..], |_| vec![7.0f32; 2], sum);
    assert!(store.has_dense);
    assert_eq!(store.dense_gradient, Some(vec![11.0, 22.0]));
    assert_eq!(store.dense_shape, (1, 2));
    assert_eq!(store.sparse_gradient.len(), 0);
}

#[test]
fn zero_gradient_leaves_an_all_zero_dense_gradient() {
    let mut store: GradientAccumulator<Vec<f32>> = GradientAccumulator::new((1, 3));
    store.accumulate_dense(&[1.0f32, -2.0, 3.0][..], zeros, sum);
    store.accumulate_gradient((&[0usize][..], vec![4.0f32, 5.0, 6.0]));
    assert_eq!(store.sparse_gradient.len(), 1);

    store.zero_gradient(cleared);
    assert!(!store.has_dense);
    assert_eq!(store.dense_gradient, Some(vec![0.0, 0.0, 0.0]));
    assert_eq!(store.sparse_gradient.len(), 0);
    assert!(store.sparse_gradient.as_slice().is_empty());
    assert_eq!(store.dense_shape, (1, 3));

    store.accumulate_dense(&[0.5f32, 0.5, 0.5][..], |_| vec![7.0f32; 3], sum);
    assert_eq!(store.dense_gradient, Some(vec![0.5, 0.5, 0.5]));
}

#[test]
fn zero_gradient_clears_a_dense_gradient_that_is_not_marked() {
    let mut store: GradientAccumulator<Vec<f32>> = GradientAccumulator::new((1, 2));
    store.zero_gradient(cleared);
    assert!(store.dense_gradient.is_none());
    assert!(!store.has_dense);

    store.dense_gradient(zeros).copy_from_slice(&[3.0, -4.0]);
    assert!(!store.has_dense);
    store.accumulate_gradient((&[0usize][..], vec![1.0f32, 1.0]));
    store.zero_gradient(cleared);
    assert_eq!(store.dense_gradient, Some(vec![0.0, 0.0]));
    assert!(!store.has_dense);
    assert_eq!(store.sparse_gradient.len(), 0);

    store.accumulate_gradient((&[0usize][..], vec![2.0f32, 2.0]));
    assert_eq!(store.sparse_gradient.as_slice()[0], (vec![0], vec![2.0, 2.0]));
}

#[test]
fn sparse_gradients_are_accumulated_in_order() {
    let mut store: GradientAccumulator<Vec<f32>> = GradientAccumulator::new((5, 1));
    store.accumulate_gradient((&[1usize, 2][..], vec![1.0f32, 2.0]));
    store.accumulate_gradient((&[2usize][..], vec![3.0f32]));
    let held = store.sparse_gradient.as_slice();
    assert_eq!(held.len(), 2);
    assert_eq!(held[0], (vec![1, 2], vec![1.0, 2.0]));
    assert_eq!(held[1], (vec![2], vec![3.0]));
    assert!(!store.has_dense);
    assert!(store.dense_gradient.is_none());
}

#[test]
fn shared_parameter_starts_with_zero_statistics() {
    let parameter = wyrm::hogwild::HogwildParameter::new(vec![1.5f32, -2.0, 0.25], |value: &Vec<f32>| {
        vec![0.0f32; value.len()]
    });
    assert_eq!(parameter.value(), &vec![1.5, -2.0, 0.25]);
    assert_eq!(parameter.squared_gradients(), &vec![0.0, 0.0, 0.0]);
    assert_eq!(parameter.moments, vec![0.0, 0.0, 0.0]);
    assert_eq!(parameter.num_updates, 0);
}
