use bullet_core::shape::Shape;
use bullet_core::submatrix_product::{output_tensor, ShapeError};

#[test]
fn six_rows_split_two_gives_nine_by_one() {
    let s = Shape::new(6, 1);
    assert_eq!(output_tensor(2, &[s, s]), Ok(Shape::new(9, 1)));
}

#[test]
fn split_equal_to_rows_gives_single_element() {
    let s = Shape::new(4, 1);
    assert_eq!(output_tensor(4, &[s, s]), Ok(Shape::new(1, 1)));
}

#[test]
fn split_one_gives_square_of_rows() {
    let s = Shape::new(5, 1);
    assert_eq!(output_tensor(1, &[s, s]), Ok(Shape::new(25, 1)));
}

#[test]
fn wrong_input_count_is_rejected() {
    let s = Shape::new(6, 1);
    assert_eq!(output_tensor(2, &[s]), Err(ShapeError::WrongInputCount { got: 1 }));
    assert_eq!(output_tensor(2, &[s, s, s]), Err(ShapeError::WrongInputCount { got: 3 }));
    assert_eq!(output_tensor(2, &[]), Err(ShapeError::WrongInputCount { got: 0 }));
}

#[test]
fn different_shapes_are_rejected() {
    let a = Shape::new(6, 1);
    let b = Shape::new(8, 1);
    assert_eq!(output_tensor(2, &[a, b]), Err(ShapeError::ShapeMismatch { left: a, right: b }));
}

#[test]
fn matrix_input_is_rejected() {
    let a = Shape::new(6, 2);
    assert_eq!(output_tensor(2, &[a, a]), Err(ShapeError::NotAVector { shape: a }));
}

#[test]
fn indivisible_rows_are_rejected() {
    let a = Shape::new(7, 1);
    assert_eq!(output_tensor(2, &[a, a]), Err(ShapeError::NotDivisible { shape: a, m: 2 }));
}

#[test]
fn shape_transpose_and_product() {
    let a = Shape::new(2, 3);
    let t = a.transpose();
    assert_eq!((t.rows(), t.cols()), (3, 2));
    let p = t.matmul(&a);
    assert_eq!((p.rows(), p.cols(), p.size()), (3, 3, 9));
}

#[test]
fn wrong_count_is_rejected_with_zero_split() {
    let s = Shape::new(6, 1);
    assert_eq!(output_tensor(0, &[s]), Err(ShapeError::WrongInputCount { got: 1 }));
    let t = Shape::new(6, 2);
    assert_eq!(output_tensor(0, &[t, t]), Err(ShapeError::NotAVector { shape: t }));
}
