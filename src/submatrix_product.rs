use vstd::prelude::*;

use crate::buffer::{DeviceBuffer, DeviceError, ExecutionContext};
use crate::kernels::{
    add_values, added, grad_entry, grad_fits, grad_values, is_product, product_fits,
    product_values, sum_fits,
};
use crate::shape::Shape;
use crate::tensor::Tensor;

verus! {

/// Why a block submatrix product cannot be built over the given input shapes.
#[derive(Clone, Copy, Debug, PartialEq, Eq, Structural)]
pub enum ShapeError {
    /// The operation takes exactly two inputs.
    WrongInputCount { got: usize },
    /// The two inputs must have the same shape.
    ShapeMismatch { left: Shape, right: Shape },
    /// The inputs must be column vectors.
    NotAVector { shape: Shape },
    /// The row count of the inputs must be a multiple of the split factor.
    NotDivisible { shape: Shape, m: usize },
}

/// Side length of the square product for column vectors of `rows` rows split into `m`-row blocks.
pub open spec fn blocks(rows: nat, m: nat) -> nat {
    rows / m
}

/// The shape rule of the block submatrix product with split factor `m`.
pub open spec fn output_shape(m: nat, inputs: Seq<Shape>) -> Result<Shape, ShapeError> {
    if inputs.len() != 2 {
        Err(ShapeError::WrongInputCount { got: inputs.len() as usize })
    } else if inputs[0] != inputs[1] {
        Err(ShapeError::ShapeMismatch { left: inputs[0], right: inputs[1] })
    } else if inputs[0].cols != 1 {
        Err(ShapeError::NotAVector { shape: inputs[0] })
    } else if (inputs[0].rows as nat) % m != 0 {
        Err(ShapeError::NotDivisible { shape: inputs[0], m: m as usize })
    } else {
        let k = blocks(inputs[0].rows as nat, m);
        Ok(Shape { rows: (k * k) as usize, cols: 1 })
    }
}

/// Two equal column vectors whose row count is a multiple of `m` give a column vector
/// of `(rows / m)^2` rows.
pub proof fn lemma_output_is_square_column(m: nat, s: Shape)
    requires
        m > 0,
        s.cols == 1,
        (s.rows as nat) % m == 0,
        blocks(s.rows as nat, m) * blocks(s.rows as nat, m) <= usize::MAX,
    ensures
        output_shape(m, seq![s, s]) == Ok::<Shape, ShapeError>(
            Shape { rows: (blocks(s.rows as nat, m) * blocks(s.rows as nat, m)) as usize, cols: 1 },
        ),
{
    let inputs = seq![s, s];
    assert(inputs.len() == 2);
    assert(inputs[0] == s && inputs[1] == s);
}

/// The shape rule fails whenever the input count is not two, the two shapes differ,
/// the input is not a column vector, or its row count is not a multiple of `m`.
pub proof fn lemma_output_rejects(m: nat, inputs: Seq<Shape>)
    requires
        inputs.len() != 2 || inputs[0] != inputs[1] || inputs[0].cols != 1 || (m > 0 && (
        inputs[0].rows as nat) % m != 0),
    ensures
        output_shape(m, inputs) is Err,
{
}

/// The inputs pass the count, equality and vector checks.
pub open spec fn vector_pair(inputs: Seq<Shape>) -> bool {
    inputs.len() == 2 && inputs[0] == inputs[1] && inputs[0].cols == 1
}

/// Where the rule reaches its divisibility check, the split factor is positive, and where
/// it then succeeds, the product's size is one a `usize` can count.
pub open spec fn rule_defined(m: nat, inputs: Seq<Shape>) -> bool {
    vector_pair(inputs) ==> m > 0 && ((inputs[0].rows as nat) % m == 0 ==> blocks(
        inputs[0].rows as nat,
        m,
    ) * blocks(inputs[0].rows as nat, m) <= usize::MAX)
}

/// Infers the output shape of a block submatrix product: each input column vector is
/// read as an `m`-row block matrix `B`, and the output is `B^T * B` flattened to a column.
pub fn output_tensor(m: usize, inputs: &[Shape]) -> (r: Result<Shape, ShapeError>)
    requires
        rule_defined(m as nat, inputs@),
    ensures
        r == output_shape(m as nat, inputs@),
{
    if inputs.len() == 2 {
        if inputs[0] == inputs[1] {
            if inputs[0].cols() == 1 {
                if inputs[0].rows() % m == 0 {
                    let k = inputs[0].rows() / m;
                    assert(blocks(inputs@[0].rows as nat, m as nat) == k);
                    assert(m * k == inputs[0].rows) by (nonlinear_arith)
                        requires
                            inputs[0].rows % m == 0,
                            k == inputs[0].rows / m,
                            m > 0,
                    ;
                    let inp = Shape::new(m, k);
                    let out = inp.transpose().matmul(&inp);
                    Ok(Shape::new(out.size(), 1))
                } else {
                    Err(ShapeError::NotDivisible { shape: inputs[0], m })
                }
            } else {
                Err(ShapeError::NotAVector { shape: inputs[0] })
            }
        } else {
            Err(ShapeError::ShapeMismatch { left: inputs[0], right: inputs[1] })
        }
    } else {
        Err(ShapeError::WrongInputCount { got: inputs.len() })
    }
}

/// What the kernels ask of the inputs: equal column vectors whose row count is a
/// multiple of `m`, with a square product whose size a `usize` can count.
pub open spec fn kernel_shapes(m: nat, s1: Shape, s2: Shape) -> bool {
    &&& m > 0
    &&& s1 == s2
    &&& s1.cols == 1
    &&& (s1.rows as nat) % m == 0
    &&& blocks(s1.rows as nat, m) * blocks(s1.rows as nat, m) <= usize::MAX
}

pub proof fn lemma_rows_split(rows: nat, m: nat)
    requires
        m > 0,
        rows % m == 0,
    ensures
        m * blocks(rows, m) == rows,
{
    vstd::arithmetic::div_mod::lemma_fundamental_div_mod(rows as int, m as int);
}

/// Writes `A^T * B` into the output values, flattened column-major, where `A` and `B` are
/// the two input vectors read as `m`-row block matrices. Nothing is written on error.
pub fn forward(
    ctx: &mut ExecutionContext,
    m: usize,
    input1: &Tensor,
    input2: &Tensor,
    output: &mut Tensor,
) -> (r: Result<(), DeviceError>)
    requires
        kernel_shapes(m as nat, input1.shape, input2.shape),
    ensures
        ({
            let rows = input1.shape.rows as nat;
            let k = blocks(rows, m as nat);
            let a = input1.values@;
            let b = input2.values@;
            let out = old(output).values@;
            &&& (a.len() < rows || b.len() < rows || out.len() < k * k) <==> r == Err::<
                (),
                DeviceError,
            >(DeviceError::ExpectedIllegalAddressAccess)
            &&& !(a.len() < rows || b.len() < rows || out.len() < k * k) ==> (r == Err::<
                (),
                DeviceError,
            >(DeviceError::Overflow) <==> !product_fits(a, b, m as nat, k))
            &&& r is Err ==> *final(output) == *old(output)
            &&& r is Ok ==> {
                &&& final(output).shape == old(output).shape
                &&& final(output).gradients == old(output).gradients
                &&& final(output).values@.len() == out.len()
                &&& is_product(final(output).values@.subrange(0, (k * k) as int), a, b, m as nat, k)
                &&& final(output).values@.subrange((k * k) as int, out.len() as int)
                    == out.subrange((k * k) as int, out.len() as int)
            }
        }),
{
    let rows = input1.shape.rows();
    let k = rows / m;
    proof {
        lemma_rows_split(rows as nat, m as nat);
    }
    if input1.values.size() < rows || input2.values.size() < rows || output.values.size() < k * k {
        return Err(DeviceError::ExpectedIllegalAddressAccess);
    }
    match product_values(m, k, &input1.values, &input2.values) {
        None => Err(DeviceError::Overflow),
        Some(v) => {
            let n = k * k;
            let loaded = output.values.load_from_slice(n, v.as_slice());
            assert(v@.subrange(0, n as int) =~= v@);
            loaded
        },
    }
}

/// The gradient that flows to one input: `grad_entry` at each of its `m * k` positions.
pub open spec fn grad_seq(x: Seq<i64>, g: Seq<i64>, m: nat, k: nat, second: bool) -> Seq<i64> {
    Seq::new(m * k, |p: int| grad_entry(x, g, m, k, p as nat, second) as i64)
}

/// The input has a gradient buffer, and either its incoming gradient or the sum with what
/// the buffer already holds does not fit an `i64`.
pub open spec fn grad_overflows(
    grads: Option<DeviceBuffer<i64>>,
    x: Seq<i64>,
    g: Seq<i64>,
    m: nat,
    k: nat,
    second: bool,
) -> bool {
    grads matches Some(ga) && (!grad_fits(x, g, m, k, second) || !sum_fits(
        ga@,
        grad_seq(x, g, m, k, second),
        m * k,
    ))
}

/// `after` is `before` with the incoming gradient added in; no buffer stays no buffer.
pub open spec fn grad_accumulated(
    before: Option<DeviceBuffer<i64>>,
    after: Option<DeviceBuffer<i64>>,
    x: Seq<i64>,
    g: Seq<i64>,
    m: nat,
    k: nat,
    second: bool,
) -> bool {
    match before {
        None => after is None,
        Some(ga) => after matches Some(na) && na@ == added(ga@, grad_seq(x, g, m, k, second), m * k),
    }
}

pub open spec fn grads_short(grads: Option<DeviceBuffer<i64>>, rows: nat) -> bool {
    grads matches Some(ga) && ga@.len() < rows
}

/// The new contents of one input's gradient buffer, `Some(None)` where it has none, and
/// `None` where a value does not fit.
pub fn accumulated_gradients(
    m: usize,
    k: usize,
    grads: &Option<DeviceBuffer<i64>>,
    x: &DeviceBuffer<i64>,
    g: &DeviceBuffer<i64>,
    second: bool,
) -> (r: Option<Option<Vec<i64>>>)
    requires
        m > 0,
        m * k <= usize::MAX,
        k * k <= usize::MAX,
        m * k <= x@.len(),
        k * k <= g@.len(),
        grads matches Some(ga) ==> m * k <= ga@.len(),
    ensures
        r is None <==> grad_overflows(*grads, x@, g@, m as nat, k as nat, second),
        r matches Some(o) ==> (o is None <==> grads is None),
        r matches Some(Some(v)) ==> grads matches Some(ga) && v@ == added(
            ga@,
            grad_seq(x@, g@, m as nat, k as nat, second),
            (m * k) as nat,
        ),
{
    match grads {
        None => Some(None),
        Some(ga) => {
            match grad_values(m, k, x, g, second) {
                None => None,
                Some(d) => {
                    assert(d@ =~= grad_seq(x@, g@, m as nat, k as nat, second));
                    match add_values(m * k, ga, &d) {
                        None => None,
                        Some(v) => Some(Some(v)),
                    }
                },
            }
        },
    }
}

/// Adds the gradients of both inputs of `A^T * B`, given the output gradient `G`, into the
/// inputs' gradient buffers: `dA = B * G^T` and `dB = A * G`. An input without a gradient
/// buffer is skipped. Nothing is written on error.
pub fn backprop(
    ctx: &mut ExecutionContext,
    m: usize,
    output: &Tensor,
    input1: &mut Tensor,
    input2: &mut Tensor,
) -> (r: Result<(), DeviceError>)
    requires
        kernel_shapes(m as nat, old(input1).shape, old(input2).shape),
        output.gradients is Some,
    ensures
        ({
            let rows = old(input1).shape.rows as nat;
            let k = blocks(rows, m as nat);
            let a = old(input1).values@;
            let b = old(input2).values@;
            let g = output.gradients->Some_0@;
            let short = a.len() < rows || b.len() < rows || g.len() < k * k || grads_short(
                old(input1).gradients,
                rows,
            ) || grads_short(old(input2).gradients, rows);
            &&& short <==> r == Err::<(), DeviceError>(DeviceError::ExpectedIllegalAddressAccess)
            &&& !short ==> (r == Err::<(), DeviceError>(DeviceError::Overflow) <==> (grad_overflows(
                old(input1).gradients,
                b,
                g,
                m as nat,
                k,
                false,
            ) || grad_overflows(old(input2).gradients, a, g, m as nat, k, true)))
            &&& r is Err ==> *final(input1) == *old(input1) && *final(input2) == *old(input2)
            &&& r is Ok ==> {
                &&& final(input1).shape == old(input1).shape
                &&& final(input1).values == old(input1).values
                &&& final(input2).shape == old(input2).shape
                &&& final(input2).values == old(input2).values
                &&& grad_accumulated(
                    old(input1).gradients,
                    final(input1).gradients,
                    b,
                    g,
                    m as nat,
                    k,
                    false,
                )
                &&& grad_accumulated(
                    old(input2).gradients,
                    final(input2).gradients,
                    a,
                    g,
                    m as nat,
                    k,
                    true,
                )
            }
        }),
{
    let rows = input1.shape.rows();
    let k = rows / m;
    proof {
        lemma_rows_split(rows as nat, m as nat);
    }
    let g = match &output.gradients {
        Some(g) => g,
        None => {
            return Err(DeviceError::ExpectedIllegalAddressAccess);
        },
    };
    if input1.values.size() < rows || input2.values.size() < rows || g.size() < k * k {
        return Err(DeviceError::ExpectedIllegalAddressAccess);
    }
    match &input1.gradients {
        Some(ga) => {
            if ga.size() < rows {
                return Err(DeviceError::ExpectedIllegalAddressAccess);
            }
        },
        None => {},
    }
    match &input2.gradients {
        Some(gb) => {
            if gb.size() < rows {
                return Err(DeviceError::ExpectedIllegalAddressAccess);
            }
        },
        None => {},
    }
    let new1 = accumulated_gradients(m, k, &input1.gradients, &input2.values, g, false);
    let new2 = accumulated_gradients(m, k, &input2.gradients, &input1.values, g, true);
    match (new1, new2) {
        (Some(o1), Some(o2)) => {
            match o1 {
                Some(v) => {
                    input1.gradients = Some(DeviceBuffer::from_vec(v));
                },
                None => {},
            }
            match o2 {
                Some(v) => {
                    input2.gradients = Some(DeviceBuffer::from_vec(v));
                },
                None => {},
            }
            Ok(())
        },
        _ => Err(DeviceError::Overflow),
    }
}

} // verus!
