use bullet_core::buffer::{DeviceBuffer, DeviceError, ExecutionContext};
use bullet_core::graph::{Graph, GraphError};
use bullet_core::shape::Shape;
use bullet_core::submatrix_product::{backprop, forward, ShapeError};
use bullet_core::tensor::Tensor;

fn contents(b: &DeviceBuffer<i64>) -> Vec<i64> {
    b.read(b.size()).unwrap()
}

fn input(values: &[i64]) -> Tensor {
    let mut t = Tensor::new(Shape::new(values.len(), 1), true);
    t.values.load_from_slice(values.len(), values).unwrap();
    t
}

#[test]
fn forward_computes_block_product() {
    let mut ctx = ExecutionContext::new();
    let a = input(&[1, 2, 3, 4, 5, 6]);
    let b = input(&[6, 5, 4, 3, 2, 1]);
    let mut out = Tensor::new(Shape::new(9, 1), true);
    assert_eq!(forward(&mut ctx, 2, &a, &b, &mut out), Ok(()));
    assert_eq!(contents(&out.values), vec![16, 38, 60, 10, 24, 38, 4, 10, 16]);
}

#[test]
fn backprop_with_ones_gives_row_sums() {
    let mut ctx = ExecutionContext::new();
    let mut a = input(&[1, 2, 3, 4, 5, 6]);
    let mut b = input(&[6, 5, 4, 3, 2, 1]);
    let mut out = Tensor::new(Shape::new(9, 1), true);
    out.gradients.as_mut().unwrap().fill(9, 1).unwrap();
    assert_eq!(backprop(&mut ctx, 2, &out, &mut a, &mut b), Ok(()));
    assert_eq!(contents(a.gradients.as_ref().unwrap()), vec![12, 9, 12, 9, 12, 9]);
    assert_eq!(contents(b.gradients.as_ref().unwrap()), vec![9, 12, 9, 12, 9, 12]);
    // a second pass accumulates
    assert_eq!(backprop(&mut ctx, 2, &out, &mut a, &mut b), Ok(()));
    assert_eq!(contents(a.gradients.as_ref().unwrap()), vec![24, 18, 24, 18, 24, 18]);
}

#[test]
fn backprop_skips_input_without_gradients() {
    let mut ctx = ExecutionContext::new();
    let mut a = Tensor::new(Shape::new(2, 1), false);
    a.values.load_from_slice(2, &[3, 4]).unwrap();
    let mut b = input(&[5, 7]);
    let mut out = Tensor::new(Shape::new(1, 1), true);
    out.gradients.as_mut().unwrap().fill(1, 2).unwrap();
    assert_eq!(backprop(&mut ctx, 2, &out, &mut a, &mut b), Ok(()));
    assert!(a.gradients.is_none());
    assert_eq!(contents(b.gradients.as_ref().unwrap()), vec![6, 8]);
}

#[test]
fn forward_into_small_output_is_capacity_error() {
    let mut ctx = ExecutionContext::new();
    let a = input(&[1, 2, 3, 4, 5, 6]);
    let b = input(&[6, 5, 4, 3, 2, 1]);
    let mut out = Tensor::new(Shape::new(8, 1), true);
    assert_eq!(forward(&mut ctx, 2, &a, &b, &mut out), Err(DeviceError::ExpectedIllegalAddressAccess));
    assert_eq!(contents(&out.values), vec![0; 8]);
}

#[test]
fn forward_overflow_writes_nothing() {
    let mut ctx = ExecutionContext::new();
    let a = input(&[i64::MAX, 2]);
    let b = input(&[2, 2]);
    let mut out = Tensor::new(Shape::new(1, 1), false);
    assert_eq!(forward(&mut ctx, 2, &a, &b, &mut out), Err(DeviceError::Overflow));
    assert_eq!(contents(&out.values), vec![0]);
}

#[test]
fn graph_end_to_end() {
    let mut ctx = ExecutionContext::new();
    let mut g = Graph::new();
    let x = g.add_input(Shape::new(6, 1), true);
    let y = g.add_input(Shape::new(6, 1), true);
    let p = g.add_operation(2, &[x, y]).unwrap();
    assert_eq!(g.num_nodes(), 3);
    g.set_values(x, &[1, 2, 3, 4, 5, 6]).unwrap();
    g.set_values(y, &[6, 5, 4, 3, 2, 1]).unwrap();
    assert_eq!(g.forward(&mut ctx), Ok(()));
    assert_eq!(g.values(p), vec![16, 38, 60, 10, 24, 38, 4, 10, 16]);
    g.zero_grad();
    g.set_gradients(p, &[1; 9]).unwrap();
    assert_eq!(g.backward(&mut ctx), Ok(()));
    assert_eq!(g.gradients(x), Some(vec![12, 9, 12, 9, 12, 9]));
    assert_eq!(g.gradients(y), Some(vec![9, 12, 9, 12, 9, 12]));
}

#[test]
fn graph_same_parent_twice_accumulates_both_paths() {
    let mut ctx = ExecutionContext::new();
    let mut g = Graph::new();
    let x = g.add_input(Shape::new(2, 1), true);
    let p = g.add_operation(2, &[x, x]).unwrap();
    g.set_values(x, &[3, 4]).unwrap();
    assert_eq!(g.forward(&mut ctx), Ok(()));
    assert_eq!(g.values(p), vec![25]);
    g.set_gradients(p, &[1]).unwrap();
    assert_eq!(g.backward(&mut ctx), Ok(()));
    assert_eq!(g.gradients(x), Some(vec![6, 8]));
}

#[test]
fn zero_grad_then_backward_without_forward() {
    let mut ctx = ExecutionContext::new();
    let mut g = Graph::new();
    let x = g.add_input(Shape::new(4, 1), true);
    let y = g.add_input(Shape::new(4, 1), false);
    let p = g.add_operation(2, &[x, y]).unwrap();
    g.zero_grad();
    assert_eq!(g.backward(&mut ctx), Ok(()));
    assert_eq!(g.gradients(x), Some(vec![0; 4]));
    assert_eq!(g.gradients(y), None);
    assert_eq!(g.gradients(p), Some(vec![0; 4]));
}

#[test]
fn graph_rejects_bad_operations() {
    let mut g = Graph::new();
    let x = g.add_input(Shape::new(6, 1), true);
    let z = g.add_input(Shape::new(4, 1), true);
    assert_eq!(g.add_operation(0, &[x, x]), Err(GraphError::ZeroSplit));
    assert!(matches!(g.add_operation(2, &[x, bullet_core::graph::Node { idx: 9 }]), Err(GraphError::UnknownNode { idx: 9 })));
    assert_eq!(
        g.add_operation(2, &[x, z]),
        Err(GraphError::Shape(ShapeError::ShapeMismatch { left: Shape::new(6, 1), right: Shape::new(4, 1) }))
    );
    assert_eq!(g.add_operation(4, &[x, x]), Err(GraphError::Shape(ShapeError::NotDivisible { shape: Shape::new(6, 1), m: 4 })));
    assert_eq!(g.num_nodes(), 2);
}

#[test]
fn tensor_zero_grad_clears_gradients_only() {
    let mut t = input(&[1, 2, 3]);
    t.gradients.as_mut().unwrap().fill(3, 5).unwrap();
    t.zero_grad();
    assert_eq!(contents(t.gradients.as_ref().unwrap()), vec![0, 0, 0]);
    assert_eq!(contents(&t.values), vec![1, 2, 3]);
    let mut u = Tensor::new(Shape::new(2, 1), false);
    u.zero_grad();
    assert!(u.gradients.is_none());
}

#[test]
fn graph_overflowing_forward_is_reported() {
    let mut ctx = ExecutionContext::new();
    let mut g = Graph::new();
    let x = g.add_input(Shape::new(2, 1), false);
    let p = g.add_operation(1, &[x, x]).unwrap();
    g.set_values(x, &[i64::MAX, 1]).unwrap();
    assert_eq!(g.forward(&mut ctx), Err(DeviceError::Overflow));
    assert_eq!(g.set_values(x, &[1, 2, 3]), Err(DeviceError::ExpectedIllegalAddressAccess));
    assert_eq!(g.set_gradients(p, &[1, 1, 1, 1]), Err(DeviceError::ExpectedIllegalAddressAccess));
}

#[test]
fn graph_reports_shape_rule_before_split() {
    let mut g = Graph::new();
    let a = g.add_input(Shape::new(6, 1), false);
    let b = g.add_input(Shape::new(4, 1), false);
    assert_eq!(
        g.add_operation(0, &[a, b]),
        Err(GraphError::Shape(ShapeError::ShapeMismatch { left: Shape::new(6, 1), right: Shape::new(4, 1) }))
    );
    assert_eq!(g.add_operation(0, &[a]), Err(GraphError::Shape(ShapeError::WrongInputCount { got: 1 })));
    assert_eq!(g.add_operation(0, &[b, b]), Err(GraphError::ZeroSplit));
}

#[test]
fn graph_failed_forward_leaves_values_unchanged() {
    let mut ctx = ExecutionContext::new();
    let mut g = Graph::new();
    let x = g.add_input(Shape::new(2, 1), false);
    let p = g.add_operation(2, &[x, x]).unwrap();
    let q = g.add_operation(1, &[p, p]).unwrap();
    g.set_values(x, &[3, 4]).unwrap();
    assert_eq!(g.forward(&mut ctx), Ok(()));
    assert_eq!(g.values(q), vec![625]);
    g.set_values(x, &[3_000_000_000, 0]).unwrap();
    assert_eq!(g.forward(&mut ctx), Err(DeviceError::Overflow));
    assert_eq!(g.values(p), vec![25]);
    assert_eq!(g.values(q), vec![625]);
}
