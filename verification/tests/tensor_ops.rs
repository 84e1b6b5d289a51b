use grad::element_opp::ElementOpp;
use grad::error::TensorError;
use grad::scalar_opp::ScalarOpp;
use grad::shape::Shape;
use grad::tensor::Tensor;
use grad::tensor_data::TensorData;
use grad::value::Value;

fn leaf(x: i64) -> Value {
    Value::Leaf(x)
}

fn node(vs: Vec<Value>) -> Value {
    Value::Node(vs)
}

fn row(xs: &[i64]) -> Value {
    node(xs.iter().map(|&x| leaf(x)).collect())
}

fn matrix(rows: &[&[i64]]) -> Value {
    node(rows.iter().map(|r| row(r)).collect())
}

#[test]
fn leaf_shape_is_empty() {
    assert_eq!(leaf(5).shape(), Vec::<usize>::new());
    assert_eq!(5i64.shape(), Vec::<usize>::new());
}

#[test]
fn leaf_element_ops_are_primitive_arithmetic() {
    assert_eq!(4i64.element_add(&3).unwrap(), 7);
    assert_eq!(4i64.element_sub(&3).unwrap(), 1);
    assert_eq!(4i64.element_mul(&3).unwrap(), 12);
    assert_eq!(7i64.element_div(&2).unwrap(), 3);
    assert_eq!((-7i64).element_div(&2).unwrap(), -3);
}

#[test]
fn matrix_shape_is_row_count_then_column_count() {
    let t = Tensor::new(matrix(&[&[1, 2, 3], &[4, 5, 6]]));
    assert_eq!(t.dimension, vec![2, 3]);
}

#[test]
fn three_axis_shape() {
    let v = node(vec![matrix(&[&[1, 2], &[3, 4]]), matrix(&[&[5, 6], &[7, 8]])]);
    assert_eq!(v.shape(), vec![2, 2, 2]);
    let t = Tensor::new(v);
    assert_eq!(t.dimension, vec![2, 2, 2]);
}

#[test]
fn cached_shape_matches_recomputed_shape() {
    let v = matrix(&[&[1, 2, 3], &[4, 5, 6]]);
    let independent = v.shape();
    let t = Tensor::new(v);
    assert_eq!(t.dimension, independent);
}

#[test]
fn matrix_addition() {
    let a = Tensor::new(matrix(&[&[1, 2, 3], &[4, 5, 6]]));
    let b = Tensor::new(matrix(&[&[1, 1, 1], &[1, 1, 1]]));
    let sum = a.add(b).unwrap();
    assert_eq!(sum.data.0, matrix(&[&[2, 3, 4], &[5, 6, 7]]));
    assert_eq!(sum.dimension, vec![2, 3]);
}

#[test]
fn matrix_scalar_multiplication() {
    let a = Tensor::new(matrix(&[&[1, 2], &[3, 4]]));
    let doubled = a.scalar_mul(2);
    assert_eq!(doubled.data.0, matrix(&[&[2, 4], &[6, 8]]));
    assert_eq!(doubled.dimension, vec![2, 2]);
}

#[test]
fn rank_zero_tensors_add_like_leaves() {
    let a = Tensor::new(leaf(5));
    assert_eq!(a.dimension, Vec::<usize>::new());
    let b = Tensor::new(leaf(3));
    let sum = a.add(b).unwrap();
    assert_eq!(sum.data.0, leaf(8));
}

#[test]
fn length_mismatch_is_reported_with_both_lengths() {
    let a = Tensor::new(row(&[1, 2, 3]));
    let b = Tensor::new(row(&[1, 2]));
    match a.add(b) {
        Err(TensorError::ShapeMismatch { left_shape, right_shape }) => {
            assert_eq!(left_shape, vec![3]);
            assert_eq!(right_shape, vec![2]);
        },
        other => panic!("expected a shape mismatch, got {:?}", other),
    }
}

#[test]
fn shape_mismatch_is_fatal_for_every_operator() {
    let shapes = |err: Result<Tensor, TensorError>| match err {
        Err(TensorError::ShapeMismatch { left_shape, right_shape }) => (left_shape, right_shape),
        other => panic!("expected a shape mismatch, got {:?}", other),
    };
    let a = || Tensor::new(matrix(&[&[1, 2, 3], &[4, 5, 6]]));
    let b = || Tensor::new(matrix(&[&[1, 2, 3, 4], &[5, 6, 7, 8]]));
    assert_eq!(shapes(a().add(b())), (vec![2, 3], vec![2, 4]));
    assert_eq!(shapes(a().sub(b())), (vec![2, 3], vec![2, 4]));
    assert_eq!(shapes(a().mul(b())), (vec![2, 3], vec![2, 4]));
    assert_eq!(shapes(a().div(b())), (vec![2, 3], vec![2, 4]));
}

#[test]
fn jagged_data_fails_below_the_cached_shape() {
    // Both tensors report shape [2, 2]: inference trusts the first row.
    let a = Tensor::new(node(vec![row(&[1, 2]), row(&[3])]));
    let b = Tensor::new(node(vec![row(&[1, 2]), row(&[3, 4])]));
    assert_eq!(a.dimension, vec![2, 2]);
    match a.add(b) {
        Err(TensorError::LengthMismatch { left_len, right_len }) => {
            assert_eq!(left_len, 1);
            assert_eq!(right_len, 2);
        },
        other => panic!("expected a length mismatch, got {:?}", other),
    }
}

#[test]
fn leaf_against_sequence_is_a_shape_mismatch() {
    let a = node(vec![leaf(1), row(&[2, 3])]);
    let b = node(vec![leaf(1), leaf(2)]);
    match a.element_add(&b) {
        Err(TensorError::ShapeMismatch { left_shape, right_shape }) => {
            assert_eq!(left_shape, vec![2]);
            assert_eq!(right_shape, Vec::<usize>::new());
        },
        other => panic!("expected a shape mismatch, got {:?}", other),
    }
}

#[test]
fn subtracting_what_was_added_restores_the_tensor() {
    let a = || Tensor::new(matrix(&[&[7, -2], &[0, 41]]));
    let b = || Tensor::new(matrix(&[&[5, 5], &[-9, 1]]));
    let sum = a().add(b()).unwrap();
    let back = sum.sub(b()).unwrap();
    assert_eq!(back.data.0, a().data.0);
    assert_eq!(back.dimension, a().dimension);
}

#[test]
fn dividing_by_the_multiplied_scalar_restores_the_tensor() {
    let a = || Tensor::new(matrix(&[&[6, -4], &[0, 13]]));
    let k = -3;
    let scaled = a().scalar_mul(k);
    let back = scaled.scalar_div(k);
    assert_eq!(back.data.0, a().data.0);
    assert_eq!(back.dimension, a().dimension);
}

#[test]
fn element_wise_multiplication_and_division() {
    let a = Tensor::new(row(&[6, 8, -9]));
    let b = Tensor::new(row(&[2, 4, 3]));
    let prod = a.mul(b).unwrap();
    assert_eq!(prod.data.0, row(&[12, 32, -27]));
    let c = Tensor::new(row(&[7, 8, -9]));
    let d = Tensor::new(row(&[2, 4, 2]));
    let quot = c.div(d).unwrap();
    assert_eq!(quot.data.0, row(&[3, 2, -4]));
}

#[test]
fn scalar_division_truncates_toward_zero() {
    let t = Tensor::new(row(&[7, -7, 1]));
    let halved = t.scalar_div(2);
    assert_eq!(halved.data.0, row(&[3, -3, 0]));
}

#[test]
fn leaf_scalar_ops() {
    assert_eq!(6i64.scalar_mul(7), 42);
    assert_eq!((-9i64).scalar_div(2), -4);
}

#[test]
fn empty_sequence_has_one_zero_axis_and_adds_vacuously() {
    let e = || Tensor::new(node(vec![]));
    assert_eq!(e().dimension, vec![0]);
    let sum = e().add(e()).unwrap();
    assert_eq!(sum.data.0, node(vec![]));
    assert_eq!(sum.dimension, vec![0]);
}

#[test]
fn tensor_data_from_scalar_wraps_it_in_a_sequence() {
    let d = TensorData::from(9);
    assert_eq!(d.0, row(&[9]));
}

#[test]
fn tensor_data_ops_mirror_the_value_ops() {
    let a = TensorData(row(&[1, 2]));
    let b = TensorData(row(&[3, 4]));
    assert_eq!(a.add(&b).unwrap().0, row(&[4, 6]));
    assert_eq!(a.sub(&b).unwrap().0, row(&[-2, -2]));
    assert_eq!(a.mul(&b).unwrap().0, row(&[3, 8]));
    assert_eq!(a.div(&b).unwrap().0, row(&[0, 0]));
}
