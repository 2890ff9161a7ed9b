use vstd::prelude::*;

use crate::buffer::{DeviceBuffer, DeviceError, ExecutionContext};
use crate::kernels::{
    added, cell, grad_entry, grad_fits, in_i64, is_product, lemma_grad_zero, product_fits,
    product_values, sum_fits,
};
use crate::shape::Shape;
use crate::submatrix_product::{
    accumulated_gradients, blocks, grad_seq, kernel_shapes, lemma_rows_split, output_shape,
    output_tensor, rule_defined, vector_pair, ShapeError,
};

verus! {

/// What a node computes. A block submatrix product names its two parents by position.
#[derive(Clone, Copy, Debug, PartialEq, Eq, Structural)]
pub enum Operation {
    Input,
    SubmatrixProduct { m: usize, left: usize, right: usize },
}

/// A stable handle to a node: its position in build order.
#[derive(Clone, Copy, Debug, PartialEq, Eq, Structural)]
pub struct Node {
    pub idx: usize,
}

/// Why a node cannot be added.
#[derive(Clone, Copy, Debug, PartialEq, Eq, Structural)]
pub enum GraphError {
    /// A parent handle that names no node of the graph.
    UnknownNode { idx: usize },
    /// A split factor of zero.
    ZeroSplit,
    /// The output would hold more elements than a `usize` counts.
    TooLarge,
    /// The parents' shapes break the operation's shape rule.
    Shape(ShapeError),
}

/// An arena of nodes in build order. Node `i` owns `values[i]` and, if it takes part in
/// backpropagation, `gradients[i]`; parents always come before their children.
#[derive(Debug)]
pub struct Graph {
    ops: Vec<Operation>,
    shapes: Vec<Shape>,
    values: Vec<DeviceBuffer<i64>>,
    gradients: Vec<Option<DeviceBuffer<i64>>>,
}

pub open spec fn opt_view(g: Option<DeviceBuffer<i64>>) -> Option<Seq<i64>> {
    match g {
        Some(b) => Some(b@),
        None => None,
    }
}

/// Side of the square product that node `i` computes.
pub open spec fn side(shapes: Seq<Shape>, m: usize, left: usize) -> nat {
    blocks(shapes[left as int].rows as nat, m as nat)
}

/// Node `i` is consistent with the nodes before it.
pub open spec fn node_wf(
    ops: Seq<Operation>,
    shapes: Seq<Shape>,
    vals: Seq<Seq<i64>>,
    grads: Seq<Option<Seq<i64>>>,
    i: int,
) -> bool {
    &&& shapes[i].wf()
    &&& vals[i].len() == shapes[i].size_spec()
    &&& grads[i] matches Some(g) ==> g.len() == vals[i].len()
    &&& ops[i] matches Operation::SubmatrixProduct { m, left, right } ==> {
        &&& left < i && right < i
        &&& kernel_shapes(m as nat, shapes[left as int], shapes[right as int])
        &&& shapes[i] == Shape { rows: (side(shapes, m, left) * side(shapes, m, left)) as usize, cols: 1 }
        &&& (grads[i] is Some <==> grads[left as int] is Some || grads[right as int] is Some)
    }
}

pub open spec fn graph_wf(
    ops: Seq<Operation>,
    shapes: Seq<Shape>,
    vals: Seq<Seq<i64>>,
    grads: Seq<Option<Seq<i64>>>,
) -> bool {
    &&& shapes.len() == ops.len()
    &&& vals.len() == ops.len()
    &&& grads.len() == ops.len()
    &&& forall|i: int| 0 <= i < ops.len() ==> #[trigger] node_wf(ops, shapes, vals, grads, i)
}

/// Every product node holds the product of its parents' values.
pub open spec fn products_hold(ops: Seq<Operation>, shapes: Seq<Shape>, vals: Seq<Seq<i64>>, upto: int) -> bool {
    forall|i: int|
        0 <= i < upto ==> (#[trigger] ops[i] matches Operation::SubmatrixProduct { m, left, right }
            ==> is_product(
            vals[i],
            vals[left as int],
            vals[right as int],
            m as nat,
            side(shapes, m, left),
        ))
}

/// `A^T * B` for `m`-row blocks, stored column-major as `k * k` values.
pub open spec fn product_seq(a: Seq<i64>, b: Seq<i64>, m: nat, k: nat) -> Seq<i64> {
    Seq::new(k * k, |p: int| cell(a, b, m, (p % k as int) as nat, (p / k as int) as nat) as i64)
}

/// The values after the forward step of node `i`.
pub open spec fn forward_step(ops: Seq<Operation>, shapes: Seq<Shape>, vals: Seq<Seq<i64>>, i: int) -> Seq<Seq<i64>> {
    match ops[i] {
        Operation::Input => vals,
        Operation::SubmatrixProduct { m, left, right } => vals.update(
            i,
            product_seq(vals[left as int], vals[right as int], m as nat, side(shapes, m, left)),
        ),
    }
}

/// The values after the forward steps of nodes `0` up to `i - 1`.
pub open spec fn forward_upto(ops: Seq<Operation>, shapes: Seq<Shape>, vals: Seq<Seq<i64>>, i: nat) -> Seq<Seq<i64>>
    decreases i,
{
    if i == 0 {
        vals
    } else {
        forward_step(ops, shapes, forward_upto(ops, shapes, vals, (i - 1) as nat), i - 1)
    }
}

/// The forward step of node `j`, reached after the steps of all earlier nodes, cannot sum
/// its product in `i64`.
pub open spec fn forward_overflows_at(ops: Seq<Operation>, shapes: Seq<Shape>, vals: Seq<Seq<i64>>, j: int) -> bool {
    match ops[j] {
        Operation::Input => false,
        Operation::SubmatrixProduct { m, left, right } => {
            let v = forward_upto(ops, shapes, vals, j as nat);
            !product_fits(v[left as int], v[right as int], m as nat, side(shapes, m, left))
        },
    }
}

fn copy_values(v: &Vec<DeviceBuffer<i64>>) -> (r: Vec<DeviceBuffer<i64>>)
    ensures
        r@.len() == v@.len(),
        forall|i: int| 0 <= i < v@.len() ==> (#[trigger] r@[i])@ == v@[i]@,
{
    let mut r: Vec<DeviceBuffer<i64>> = Vec::new();
    let mut i: usize = 0;
    while i < v.len()
        invariant
            i <= v@.len(),
            r@.len() == i,
            forall|j: int| 0 <= j < i ==> (#[trigger] r@[j])@ == v@[j]@,
        decreases v@.len() - i,
    {
        r.push(v[i].duplicate());
        i = i + 1;
    }
    r
}

fn copy_gradients(v: &Vec<Option<DeviceBuffer<i64>>>) -> (r: Vec<Option<DeviceBuffer<i64>>>)
    ensures
        r@.len() == v@.len(),
        forall|i: int| 0 <= i < v@.len() ==> opt_view(#[trigger] r@[i]) == opt_view(v@[i]),
{
    let mut r: Vec<Option<DeviceBuffer<i64>>> = Vec::new();
    let mut i: usize = 0;
    while i < v.len()
        invariant
            i <= v@.len(),
            r@.len() == i,
            forall|j: int| 0 <= j < i ==> opt_view(#[trigger] r@[j]) == opt_view(v@[j]),
        decreases v@.len() - i,
    {
        let c = match &v[i] {
            None => None,
            Some(b) => Some(b.duplicate()),
        };
        r.push(c);
        i = i + 1;
    }
    r
}

/// The gradients after the upstream gradient `g` of a product node has flowed into its
/// left parent.
pub open spec fn flow_left(
    vals: Seq<Seq<i64>>,
    grads: Seq<Option<Seq<i64>>>,
    g: Seq<i64>,
    m: nat,
    k: nat,
    left: usize,
    right: usize,
) -> Seq<Option<Seq<i64>>> {
    match grads[left as int] {
        None => grads,
        Some(ga) => grads.update(left as int, Some(added(ga, grad_seq(vals[right as int], g, m, k, false), m * k))),
    }
}

/// The gradients after the backward step of node `i`: its upstream gradient flows into the
/// left parent, then into the right one, each added to what that parent already holds.
pub open spec fn backward_step(
    ops: Seq<Operation>,
    shapes: Seq<Shape>,
    vals: Seq<Seq<i64>>,
    grads: Seq<Option<Seq<i64>>>,
    i: int,
) -> Seq<Option<Seq<i64>>> {
    match ops[i] {
        Operation::Input => grads,
        Operation::SubmatrixProduct { m, left, right } => match grads[i] {
            None => grads,
            Some(g) => {
                let k = side(shapes, m, left);
                let g1 = flow_left(vals, grads, g, m as nat, k, left, right);
                match g1[right as int] {
                    None => g1,
                    Some(gb) => g1.update(
                        right as int,
                        Some(added(gb, grad_seq(vals[left as int], g, m as nat, k, true), m as nat * k)),
                    ),
                }
            },
        },
    }
}

/// A parent with a gradient buffer whose incoming gradient, or its sum with what the buffer
/// holds, does not fit an `i64`.
pub open spec fn flow_overflows(ga: Option<Seq<i64>>, x: Seq<i64>, g: Seq<i64>, m: nat, k: nat, second: bool) -> bool {
    ga matches Some(a) && (!grad_fits(x, g, m, k, second) || !sum_fits(a, grad_seq(x, g, m, k, second), m * k))
}

/// The backward step of node `i` from `grads` cannot be carried out in `i64`.
pub open spec fn step_overflows(
    ops: Seq<Operation>,
    shapes: Seq<Shape>,
    vals: Seq<Seq<i64>>,
    grads: Seq<Option<Seq<i64>>>,
    i: int,
) -> bool {
    match ops[i] {
        Operation::Input => false,
        Operation::SubmatrixProduct { m, left, right } => match grads[i] {
            None => false,
            Some(g) => {
                let k = side(shapes, m, left);
                flow_overflows(grads[left as int], vals[right as int], g, m as nat, k, false)
                    || flow_overflows(
                    flow_left(vals, grads, g, m as nat, k, left, right)[right as int],
                    vals[left as int],
                    g,
                    m as nat,
                    k,
                    true,
                )
            },
        },
    }
}

/// The gradients after the backward steps of nodes `ops.len() - 1` down to `i`.
pub open spec fn backward_from(
    ops: Seq<Operation>,
    shapes: Seq<Shape>,
    vals: Seq<Seq<i64>>,
    grads: Seq<Option<Seq<i64>>>,
    i: nat,
) -> Seq<Option<Seq<i64>>>
    decreases ops.len() - i,
{
    if i >= ops.len() {
        grads
    } else {
        backward_step(ops, shapes, vals, backward_from(ops, shapes, vals, grads, i + 1), i as int)
    }
}

/// The backward step of node `j`, reached after the steps of all later nodes, overflows.
pub open spec fn overflows_at(
    ops: Seq<Operation>,
    shapes: Seq<Shape>,
    vals: Seq<Seq<i64>>,
    grads: Seq<Option<Seq<i64>>>,
    j: int,
) -> bool {
    step_overflows(ops, shapes, vals, backward_from(ops, shapes, vals, grads, (j + 1) as nat), j)
}

pub open spec fn all_zero(grads: Seq<Option<Seq<i64>>>) -> bool {
    forall|i: int|
        0 <= i < grads.len() ==> match #[trigger] grads[i] {
            Some(g) => forall|j: int| 0 <= j < g.len() ==> g[j] == 0,
            None => true,
        }
}

fn zeros(len: usize) -> (r: Vec<i64>)
    ensures
        r@ == Seq::new(len as nat, |_j: int| 0i64),
{
    let mut v: Vec<i64> = Vec::new();
    let mut i: usize = 0;
    while i < len
        invariant
            i <= len,
            v@ == Seq::new(i as nat, |_j: int| 0i64),
        decreases len - i,
    {
        v.push(0i64);
        i = i + 1;
    }
    v
}

/// The shapes of the given parents.
pub open spec fn parent_shapes(shapes: Seq<Shape>, parents: Seq<Node>) -> Seq<Shape> {
    Seq::new(parents.len(), |j: int| shapes[parents[j].idx as int])
}

pub open spec fn parents_known(parents: Seq<Node>, n: nat) -> bool {
    forall|j: int| 0 <= j < parents.len() ==> (#[trigger] parents[j]).idx < n
}

proof fn lemma_zero_at(grads: Seq<Option<Seq<i64>>>, i: int)
    requires
        all_zero(grads),
        0 <= i < grads.len(),
        grads[i] is Some,
    ensures
        forall|j: int| 0 <= j < grads[i]->Some_0.len() ==> grads[i]->Some_0[j] == 0,
{
    assert(match grads[i] {
        Some(g) => forall|j: int| 0 <= j < g.len() ==> g[j] == 0,
        None => true,
    });
}

/// Against a zero upstream gradient, a zero gradient buffer takes no overflow and stays zero.
proof fn lemma_zero_step(ga: Seq<i64>, x: Seq<i64>, g: Seq<i64>, m: nat, k: nat, second: bool)
    requires
        m > 0,
        k * k <= g.len(),
        forall|j: int| 0 <= j < g.len() ==> g[j] == 0,
        ga.len() == m * k,
        forall|j: int| 0 <= j < ga.len() ==> ga[j] == 0,
    ensures
        grad_fits(x, g, m, k, second),
        sum_fits(ga, grad_seq(x, g, m, k, second), m * k),
        added(ga, grad_seq(x, g, m, k, second), m * k).len() == ga.len(),
        forall|j: int| 0 <= j < ga.len() ==> #[trigger] added(ga, grad_seq(x, g, m, k, second), m * k)[j] == 0,
{
    lemma_grad_zero(x, g, m, k, second);
    let d = grad_seq(x, g, m, k, second);
    assert forall|j: int| 0 <= j < m * k implies d[j] == 0 by {
        assert(grad_entry(x, g, m, k, j as nat, second) == 0);
    }
    assert forall|j: int| 0 <= j < m * k implies #[trigger] in_i64(ga[j] + d[j]) by {}
}

/// After one parent's buffer is replaced by zeros, a graph of zero gradients stays one.
proof fn lemma_zero_update(grads: Seq<Option<Seq<i64>>>, p: int, v: Seq<i64>)
    requires
        all_zero(grads),
        0 <= p < grads.len(),
        forall|j: int| 0 <= j < v.len() ==> v[j] == 0,
    ensures
        all_zero(grads.update(p, Some(v))),
{
    let u = grads.update(p, Some(v));
    assert forall|i: int| 0 <= i < u.len() implies match #[trigger] u[i] {
        Some(g) => forall|j: int| 0 <= j < g.len() ==> g[j] == 0,
        None => true,
    } by {
        if i != p {
            assert(u[i] == grads[i]);
            assert(match grads[i] {
                Some(g) => forall|j: int| 0 <= j < g.len() ==> g[j] == 0,
                None => true,
            });
        }
    }
}

/// The outcome of adding a product with split factor `m` over parents of shapes `ps`: the
/// shape rule's count, equality and vector checks come first, then a zero split factor,
/// divisibility, and last the size of the product.
pub open spec fn add_rule(m: nat, ps: Seq<Shape>) -> Result<Shape, GraphError> {
    if !vector_pair(ps) {
        match output_shape(m, ps) {
            Err(e) => Err(GraphError::Shape(e)),
            Ok(s) => Ok(s),
        }
    } else if m == 0 {
        Err(GraphError::ZeroSplit)
    } else if (ps[0].rows as nat) % m == 0 && blocks(ps[0].rows as nat, m) * blocks(ps[0].rows as nat, m)
        > usize::MAX {
        Err(GraphError::TooLarge)
    } else {
        match output_shape(m, ps) {
            Err(e) => Err(GraphError::Shape(e)),
            Ok(s) => Ok(s),
        }
    }
}

impl Graph {
    pub closed spec fn ops_spec(&self) -> Seq<Operation> {
        self.ops@
    }

    pub closed spec fn shapes_spec(&self) -> Seq<Shape> {
        self.shapes@
    }

    pub closed spec fn vals_spec(&self) -> Seq<Seq<i64>> {
        Seq::new(self.values@.len(), |i: int| self.values@[i]@)
    }

    pub closed spec fn grads_spec(&self) -> Seq<Option<Seq<i64>>> {
        Seq::new(self.gradients@.len(), |i: int| opt_view(self.gradients@[i]))
    }

    pub open spec fn wf(&self) -> bool {
        graph_wf(self.ops_spec(), self.shapes_spec(), self.vals_spec(), self.grads_spec())
    }

    pub fn new() -> (r: Graph)
        ensures
            r.wf(),
            r.ops_spec().len() == 0,
    {
        let r = Graph { ops: Vec::new(), shapes: Vec::new(), values: Vec::new(), gradients: Vec::new() };
        assert(r.vals_spec() =~= Seq::empty());
        assert(r.grads_spec() =~= Seq::empty());
        r
    }

    pub fn num_nodes(&self) -> (r: usize)
        requires
            self.wf(),
        ensures
            r == self.ops_spec().len(),
    {
        self.ops.len()
    }

    /// Adds a leaf holding zeros, with a zeroed gradient buffer if `requires_grad`.
    pub fn add_input(&mut self, shape: Shape, requires_grad: bool) -> (r: Node)
        requires
            old(self).wf(),
            shape.wf(),
        ensures
            final(self).wf(),
            r.idx == old(self).ops_spec().len(),
            final(self).ops_spec() == old(self).ops_spec().push(Operation::Input),
            final(self).shapes_spec() == old(self).shapes_spec().push(shape),
            final(self).vals_spec() == old(self).vals_spec().push(Seq::new(shape.size_spec(), |_j: int| 0i64)),
            final(self).grads_spec() == old(self).grads_spec().push(
                if requires_grad {
                    Some(Seq::new(shape.size_spec(), |_j: int| 0i64))
                } else {
                    None
                },
            ),
    {
        let idx = self.ops.len();
        let size = shape.size();
        let ghost old_vals = self.vals_spec();
        let ghost old_grads = self.grads_spec();
        self.ops.push(Operation::Input);
        self.shapes.push(shape);
        self.values.push(DeviceBuffer::new(size, 0i64));
        if requires_grad {
            self.gradients.push(Some(DeviceBuffer::new(size, 0i64)));
        } else {
            self.gradients.push(None);
        }
        assert(self.vals_spec() =~= old_vals.push(Seq::new(shape.size_spec(), |_j: int| 0i64)));
        assert(self.grads_spec() =~= old_grads.push(
            if requires_grad {
                Some(Seq::new(shape.size_spec(), |_j: int| 0i64))
            } else {
                None
            },
        ));
        assert forall|i: int| 0 <= i < self.ops_spec().len() implies #[trigger] node_wf(
            self.ops_spec(),
            self.shapes_spec(),
            self.vals_spec(),
            self.grads_spec(),
            i,
        ) by {
            if i < idx {
                assert(node_wf(old(self).ops_spec(), old(self).shapes_spec(), old_vals, old_grads, i));
            }
        }
        Node { idx }
    }

    /// Adds a block submatrix product with split factor `m` over `parents`, after checking
    /// its shape rule. The new node takes part in backpropagation exactly when a parent does.
    pub fn add_operation(&mut self, m: usize, parents: &[Node]) -> (r: Result<Node, GraphError>)
        requires
            old(self).wf(),
            old(self).ops_spec().len() < usize::MAX,
        ensures
            final(self).wf(),
            ({
                let n = old(self).ops_spec().len();
                let ps = parent_shapes(old(self).shapes_spec(), parents@);
                &&& (!parents_known(parents@, n) <==> r matches Err(GraphError::UnknownNode { .. }))
                &&& r matches Err(GraphError::UnknownNode { idx }) ==> idx >= n && exists|j: int|
                    0 <= j < parents@.len() && (#[trigger] parents@[j]).idx == idx
                &&& parents_known(parents@, n) ==> match add_rule(m as nat, ps) {
                    Err(e) => r == Err::<Node, GraphError>(e),
                    Ok(s) => {
                        let left = parents@[0].idx;
                        let right = parents@[1].idx;
                        let zeros = Seq::new(s.size_spec(), |_j: int| 0i64);
                        &&& r == Ok::<Node, GraphError>(Node { idx: n as usize })
                        &&& final(self).ops_spec() == old(self).ops_spec().push(
                            Operation::SubmatrixProduct { m, left, right },
                        )
                        &&& final(self).shapes_spec() == old(self).shapes_spec().push(s)
                        &&& final(self).vals_spec() == old(self).vals_spec().push(zeros)
                        &&& final(self).grads_spec() == old(self).grads_spec().push(
                            if old(self).grads_spec()[left as int] is Some
                                || old(self).grads_spec()[right as int] is Some {
                                Some(zeros)
                            } else {
                                None
                            },
                        )
                    },
                }
                &&& r is Err ==> {
                    &&& final(self).ops_spec() == old(self).ops_spec()
                    &&& final(self).shapes_spec() == old(self).shapes_spec()
                    &&& final(self).vals_spec() == old(self).vals_spec()
                    &&& final(self).grads_spec() == old(self).grads_spec()
                }
            }),
    {
        let n = self.ops.len();
        let mut ps: Vec<Shape> = Vec::new();
        let mut j: usize = 0;
        while j < parents.len()
            invariant
                n == self.ops@.len(),
                self.wf(),
                *self == *old(self),
                j <= parents@.len(),
                ps@.len() == j,
                forall|q: int| 0 <= q < j ==> (#[trigger] parents@[q]).idx < n,
                forall|q: int| 0 <= q < j ==> ps@[q] == self.shapes@[parents@[q].idx as int],
            decreases parents@.len() - j,
        {
            let idx = parents[j].idx;
            if idx >= n {
                assert(parents@[j as int].idx == idx);
                assert(!parents_known(parents@, n as nat));
                return Err(GraphError::UnknownNode { idx });
            }
            ps.push(self.shapes[idx]);
            j = j + 1;
        }
        assert(ps@ =~= parent_shapes(self.shapes_spec(), parents@));
        assert(parents_known(parents@, n as nat));
        if ps.len() == 2 && ps[0] == ps[1] && ps[0].cols() == 1 {
            if m == 0 {
                return Err(GraphError::ZeroSplit);
            }
            if ps[0].rows() % m == 0 {
                let k = ps[0].rows() / m;
                assert(blocks(ps@[0].rows as nat, m as nat) == k);
                if k.checked_mul(k).is_none() {
                    return Err(GraphError::TooLarge);
                }
            }
        }
        match output_tensor(m, ps.as_slice()) {
            Err(e) => Err(GraphError::Shape(e)),
            Ok(s) => {
                let left = parents[0].idx;
                let right = parents[1].idx;
                let requires_grad = self.gradients[left].is_some() || self.gradients[right].is_some();
                let ghost old_vals = self.vals_spec();
                let ghost old_grads = self.grads_spec();
                assert(s.cols == 1);
                assert(s.rows * s.cols == s.rows);
                let size = s.size();
                let ghost zeros = Seq::new(s.size_spec(), |_j: int| 0i64);
                assert(opt_view(self.gradients@[left as int]) == old_grads[left as int]);
                assert(opt_view(self.gradients@[right as int]) == old_grads[right as int]);
                self.ops.push(Operation::SubmatrixProduct { m, left, right });
                self.shapes.push(s);
                self.values.push(DeviceBuffer::new(size, 0i64));
                if requires_grad {
                    self.gradients.push(Some(DeviceBuffer::new(size, 0i64)));
                } else {
                    self.gradients.push(None);
                }
                assert(self.vals_spec() =~= old_vals.push(zeros));
                assert(self.grads_spec() =~= old_grads.push(
                    if requires_grad {
                        Some(zeros)
                    } else {
                        None
                    },
                ));
                assert forall|i: int| 0 <= i < self.ops_spec().len() implies #[trigger] node_wf(
                    self.ops_spec(),
                    self.shapes_spec(),
                    self.vals_spec(),
                    self.grads_spec(),
                    i,
                ) by {
                    if i < n {
                        assert(node_wf(old(self).ops_spec(), old(self).shapes_spec(), old_vals, old_grads, i));
                    }
                }
                Ok(Node { idx: n })
            },
        }
    }

    /// Replaces the values of node `i` by `v`, of the same length.
    fn replace_values(&mut self, i: usize, v: Vec<i64>)
        requires
            old(self).wf(),
            i < old(self).ops_spec().len(),
            v@.len() == old(self).vals_spec()[i as int].len(),
        ensures
            final(self).wf(),
            final(self).ops_spec() == old(self).ops_spec(),
            final(self).shapes_spec() == old(self).shapes_spec(),
            final(self).grads_spec() == old(self).grads_spec(),
            final(self).vals_spec() == old(self).vals_spec().update(i as int, v@),
    {
        let ghost old_vals = self.vals_spec();
        self.values.set(i, DeviceBuffer::from_vec(v));
        assert(self.vals_spec() =~= old_vals.update(i as int, v@));
        assert forall|j: int| 0 <= j < self.ops_spec().len() implies #[trigger] node_wf(
            self.ops_spec(),
            self.shapes_spec(),
            self.vals_spec(),
            self.grads_spec(),
            j,
        ) by {
            assert(node_wf(old(self).ops_spec(), old(self).shapes_spec(), old_vals, old(self).grads_spec(), j));
        }
    }

    /// Replaces the gradient buffer of node `i`, which has one, by `v`, of the same length.
    fn replace_gradients(&mut self, i: usize, v: Vec<i64>)
        requires
            old(self).wf(),
            i < old(self).ops_spec().len(),
            old(self).grads_spec()[i as int] matches Some(g) && v@.len() == g.len(),
        ensures
            final(self).wf(),
            final(self).ops_spec() == old(self).ops_spec(),
            final(self).shapes_spec() == old(self).shapes_spec(),
            final(self).vals_spec() == old(self).vals_spec(),
            final(self).grads_spec() == old(self).grads_spec().update(i as int, Some(v@)),
    {
        let ghost old_grads = self.grads_spec();
        self.gradients.set(i, Some(DeviceBuffer::from_vec(v)));
        assert(self.grads_spec() =~= old_grads.update(i as int, Some(v@)));
        assert forall|j: int| 0 <= j < self.ops_spec().len() implies #[trigger] node_wf(
            self.ops_spec(),
            self.shapes_spec(),
            self.vals_spec(),
            self.grads_spec(),
            j,
        ) by {
            assert(node_wf(old(self).ops_spec(), old(self).shapes_spec(), old(self).vals_spec(), old_grads, j));
        }
    }

    /// Runs every product node in build order, each writing `A^T * B` of its parents'
    /// values into its own. Leaves and gradients are left as they are.
    pub fn forward(&mut self, ctx: &mut ExecutionContext) -> (r: Result<(), DeviceError>)
        requires
            old(self).wf(),
        ensures
            final(self).wf(),
            final(self).ops_spec() == old(self).ops_spec(),
            final(self).shapes_spec() == old(self).shapes_spec(),
            final(self).grads_spec() == old(self).grads_spec(),
            forall|i: int|
                0 <= i < old(self).ops_spec().len() && (#[trigger] old(self).ops_spec()[i]) is Input
                    ==> final(self).vals_spec()[i] == old(self).vals_spec()[i],
            r is Ok ==> products_hold(
                final(self).ops_spec(),
                final(self).shapes_spec(),
                final(self).vals_spec(),
                final(self).ops_spec().len() as int,
            ),
            r is Ok <==> forall|j: int|
                0 <= j < old(self).ops_spec().len() ==> !#[trigger] forward_overflows_at(
                    old(self).ops_spec(),
                    old(self).shapes_spec(),
                    old(self).vals_spec(),
                    j,
                ),
            r is Ok ==> final(self).vals_spec() == forward_upto(
                old(self).ops_spec(),
                old(self).shapes_spec(),
                old(self).vals_spec(),
                old(self).ops_spec().len() as nat,
            ),
            r is Err ==> r == Err::<(), DeviceError>(DeviceError::Overflow) && final(self).vals_spec()
                == old(self).vals_spec(),
    {
        let n = self.ops.len();
        let saved = copy_values(&self.values);
        let mut i: usize = 0;
        while i < n
            invariant
                i <= n,
                n == self.ops_spec().len(),
                self.wf(),
                self.ops_spec() == old(self).ops_spec(),
                self.shapes_spec() == old(self).shapes_spec(),
                self.grads_spec() == old(self).grads_spec(),
                forall|j: int|
                    0 <= j < n && (#[trigger] old(self).ops_spec()[j]) is Input
                        ==> self.vals_spec()[j] == old(self).vals_spec()[j],
                products_hold(self.ops_spec(), self.shapes_spec(), self.vals_spec(), i as int),
                self.vals_spec() == forward_upto(old(self).ops_spec(), old(self).shapes_spec(), old(self).vals_spec(), i as nat),
                forall|j: int| 0 <= j < i ==> !#[trigger] forward_overflows_at(
                    old(self).ops_spec(),
                    old(self).shapes_spec(),
                    old(self).vals_spec(),
                    j,
                ),
                saved@.len() == n,
                old(self).wf(),
                old(self).vals_spec().len() == n,
                forall|j: int| 0 <= j < n ==> (#[trigger] saved@[j])@ == old(self).vals_spec()[j],
            decreases n - i,
        {
            assert(node_wf(self.ops_spec(), self.shapes_spec(), self.vals_spec(), self.grads_spec(), i as int));
            match self.ops[i] {
                Operation::Input => {},
                Operation::SubmatrixProduct { m, left, right } => {
                    let rows = self.shapes[left].rows();
                    let k = rows / m;
                    proof {
                        lemma_rows_split(rows as nat, m as nat);
                        assert(node_wf(self.ops_spec(), self.shapes_spec(), self.vals_spec(), self.grads_spec(), left as int));
                        assert(node_wf(self.ops_spec(), self.shapes_spec(), self.vals_spec(), self.grads_spec(), right as int));
                        assert(self.values@[left as int]@ == self.vals_spec()[left as int]);
                        assert(self.values@[right as int]@ == self.vals_spec()[right as int]);
                    }
                    match product_values(m, k, &self.values[left], &self.values[right]) {
                        None => {
                            assert(forward_overflows_at(old(self).ops_spec(), old(self).shapes_spec(), old(self).vals_spec(), i as int));
                            self.values = saved;
                            assert(self.vals_spec() =~= old(self).vals_spec());
                            return Err(DeviceError::Overflow);
                        },
                        Some(v) => {
                            let ghost before = self.vals_spec();
                            assert(side(self.shapes_spec(), m, left) == k);
                            assert(self.shapes_spec()[i as int].rows == k * k);
                            assert(self.shapes_spec()[i as int].cols == 1);
                            assert(self.shapes_spec()[i as int].size_spec() == k * k) by (nonlinear_arith)
                                requires
                                    self.shapes_spec()[i as int].cols == 1,
                                    self.shapes_spec()[i as int].rows == k * k,
                                    k * k <= usize::MAX,
                            ;
                            self.replace_values(i, v);
                            assert forall|j: int| 0 <= j < i + 1 implies (#[trigger] self.ops_spec()[j] matches Operation::SubmatrixProduct { m, left, right }
                                ==> is_product(
                                self.vals_spec()[j],
                                self.vals_spec()[left as int],
                                self.vals_spec()[right as int],
                                m as nat,
                                side(self.shapes_spec(), m, left),
                            )) by {
                                if j < i {
                                    assert(node_wf(self.ops_spec(), self.shapes_spec(), self.vals_spec(), self.grads_spec(), j));
                                }
                            }
                            assert(v@ =~= product_seq(before[left as int], before[right as int], m as nat, k as nat));
                        },
                    }
                },
            }
            assert(self.vals_spec() == forward_step(self.ops_spec(), self.shapes_spec(), forward_upto(old(self).ops_spec(), old(self).shapes_spec(), old(self).vals_spec(), i as nat), i as int));
            i = i + 1;
        }
        Ok(())
    }

    /// Runs every product node's backward step in reverse build order, adding the
    /// gradient that flows to each parent into the parent's gradient buffer.
    pub fn backward(&mut self, ctx: &mut ExecutionContext) -> (r: Result<(), DeviceError>)
        requires
            old(self).wf(),
        ensures
            final(self).wf(),
            final(self).ops_spec() == old(self).ops_spec(),
            final(self).shapes_spec() == old(self).shapes_spec(),
            final(self).vals_spec() == old(self).vals_spec(),
            r is Ok ==> final(self).grads_spec() == backward_from(
                old(self).ops_spec(),
                old(self).shapes_spec(),
                old(self).vals_spec(),
                old(self).grads_spec(),
                0,
            ),
            r is Err ==> r == Err::<(), DeviceError>(DeviceError::Overflow) && final(self).grads_spec()
                == old(self).grads_spec(),
            r is Ok <==> forall|j: int|
                0 <= j < old(self).ops_spec().len() ==> !#[trigger] overflows_at(
                    old(self).ops_spec(),
                    old(self).shapes_spec(),
                    old(self).vals_spec(),
                    old(self).grads_spec(),
                    j,
                ),
            all_zero(old(self).grads_spec()) ==> r is Ok && all_zero(final(self).grads_spec()),
    {
        let n = self.ops.len();
        let saved = copy_gradients(&self.gradients);
        let mut i: usize = n;
        while i > 0
            invariant
                i <= n,
                n == self.ops_spec().len(),
                self.wf(),
                self.ops_spec() == old(self).ops_spec(),
                self.shapes_spec() == old(self).shapes_spec(),
                self.vals_spec() == old(self).vals_spec(),
                self.grads_spec() == backward_from(
                    old(self).ops_spec(),
                    old(self).shapes_spec(),
                    old(self).vals_spec(),
                    old(self).grads_spec(),
                    i as nat,
                ),
                all_zero(old(self).grads_spec()) ==> all_zero(self.grads_spec()),
                old(self).wf(),
                old(self).grads_spec().len() == n,
                saved@.len() == n,
                forall|j: int| 0 <= j < n ==> opt_view(#[trigger] saved@[j]) == old(self).grads_spec()[j],
                forall|j: int|
                    i <= j < n ==> !#[trigger] overflows_at(
                        old(self).ops_spec(),
                        old(self).shapes_spec(),
                        old(self).vals_spec(),
                        old(self).grads_spec(),
                        j,
                    ),
            decreases i,
        {
            i = i - 1;
            let ghost ops = self.ops_spec();
            let ghost shapes = self.shapes_spec();
            let ghost vals = self.vals_spec();
            let ghost before = self.grads_spec();
            assert(node_wf(ops, shapes, vals, before, i as int));
            match self.ops[i] {
                Operation::Input => {},
                Operation::SubmatrixProduct { m, left, right } => {
                    let g = match &self.gradients[i] {
                        None => {
                            continue;
                        },
                        Some(g) => g.duplicate(),
                    };
                    let rows = self.shapes[left].rows();
                    let k = rows / m;
                    proof {
                        lemma_rows_split(rows as nat, m as nat);
                        assert(node_wf(ops, shapes, vals, before, left as int));
                        assert(node_wf(ops, shapes, vals, before, right as int));
                        assert(self.values@[left as int]@ == vals[left as int]);
                        assert(self.values@[right as int]@ == vals[right as int]);
                        assert(opt_view(self.gradients@[left as int]) == before[left as int]);
                        assert(opt_view(self.gradients@[i as int]) == before[i as int]);
                        assert(side(shapes, m, left) == k);
                        assert(shapes[i as int].cols == 1);
                        assert(shapes[i as int].size_spec() == k * k) by (nonlinear_arith)
                            requires
                                shapes[i as int].cols == 1,
                                shapes[i as int].rows == k * k,
                                k * k <= usize::MAX,
                        ;
                        assert(shapes[left as int].size_spec() == m * k) by (nonlinear_arith)
                            requires
                                shapes[left as int].cols == 1,
                                shapes[left as int].rows == m * k,
                        ;
                        assert(before[i as int] == Some(g@));
                        if all_zero(old(self).grads_spec()) {
                            lemma_zero_at(before, i as int);
                            lemma_grad_zero(vals[right as int], g@, m as nat, k as nat, false);
                            if before[left as int] is Some {
                                lemma_zero_at(before, left as int);
                                lemma_zero_step(before[left as int]->Some_0, vals[right as int], g@, m as nat, k as nat, false);
                            }
                        }
                    }
                    match accumulated_gradients(m, k, &self.gradients[left], &self.values[right], &g, false) {
                        None => {
                            assert(overflows_at(ops, shapes, vals, old(self).grads_spec(), i as int));
                            self.gradients = saved;
                            assert(self.grads_spec() =~= old(self).grads_spec());
                            return Err(DeviceError::Overflow);
                        },
                        Some(None) => {},
                        Some(Some(v)) => {
                            proof {
                                if all_zero(old(self).grads_spec()) {
                                    lemma_zero_update(before, left as int, v@);
                                }
                            }
                            self.replace_gradients(left, v);
                        },
                    }
                    let ghost mid = self.grads_spec();
                    proof {
                        assert(node_wf(ops, shapes, vals, mid, right as int));
                        assert(opt_view(self.gradients@[right as int]) == mid[right as int]);
                        if all_zero(old(self).grads_spec()) && mid[right as int] is Some {
                            lemma_zero_at(mid, right as int);
                            lemma_zero_step(mid[right as int]->Some_0, vals[left as int], g@, m as nat, k as nat, true);
                        }
                    }
                    assert(mid == flow_left(vals, before, g@, m as nat, k as nat, left, right));
                    match accumulated_gradients(m, k, &self.gradients[right], &self.values[left], &g, true) {
                        None => {
                            assert(overflows_at(ops, shapes, vals, old(self).grads_spec(), i as int));
                            self.gradients = saved;
                            assert(self.grads_spec() =~= old(self).grads_spec());
                            return Err(DeviceError::Overflow);
                        },
                        Some(None) => {},
                        Some(Some(v)) => {
                            proof {
                                if all_zero(old(self).grads_spec()) {
                                    lemma_zero_update(mid, right as int, v@);
                                }
                            }
                            self.replace_gradients(right, v);
                        },
                    }
                },
            }
            assert(self.grads_spec() == backward_step(ops, shapes, vals, before, i as int));
            assert(!overflows_at(ops, shapes, vals, old(self).grads_spec(), i as int));
        }
        Ok(())
    }

    /// Sets every gradient buffer to zeros.
    pub fn zero_grad(&mut self)
        requires
            old(self).wf(),
        ensures
            final(self).wf(),
            final(self).ops_spec() == old(self).ops_spec(),
            final(self).shapes_spec() == old(self).shapes_spec(),
            final(self).vals_spec() == old(self).vals_spec(),
            all_zero(final(self).grads_spec()),
            forall|i: int|
                0 <= i < old(self).ops_spec().len() ==> (#[trigger] final(self).grads_spec()[i] is Some
                    <==> old(self).grads_spec()[i] is Some),
    {
        let n = self.ops.len();
        let mut i: usize = 0;
        while i < n
            invariant
                i <= n,
                n == self.ops_spec().len(),
                self.wf(),
                self.ops_spec() == old(self).ops_spec(),
                self.shapes_spec() == old(self).shapes_spec(),
                self.vals_spec() == old(self).vals_spec(),
                self.grads_spec().len() == n,
                forall|j: int| 0 <= j < n ==> (#[trigger] self.grads_spec()[j] is Some <==> old(self).grads_spec()[j] is Some),
                all_zero(self.grads_spec().subrange(0, i as int)),
            decreases n - i,
        {
            assert(opt_view(self.gradients@[i as int]) == self.grads_spec()[i as int]);
            let len = match &self.gradients[i] {
                None => 0,
                Some(g) => g.size(),
            };
            if self.gradients[i].is_some() {
                let ghost before = self.grads_spec();
                self.replace_gradients(i, zeros(len));
                assert(self.grads_spec().subrange(0, i as int) =~= before.subrange(0, i as int));
            }
            i = i + 1;
            assert forall|j: int| 0 <= j < i implies match #[trigger] self.grads_spec().subrange(0, i as int)[j] {
                Some(g) => forall|t: int| 0 <= t < g.len() ==> g[t] == 0,
                None => true,
            } by {
                if j < i - 1 {
                    assert(self.grads_spec().subrange(0, i as int)[j] == self.grads_spec().subrange(0, i - 1)[j]);
                }
            }
        }
        assert(self.grads_spec().subrange(0, n as int) =~= self.grads_spec());
    }

    /// The values of `node`.
    pub fn values(&self, node: Node) -> (r: Vec<i64>)
        requires
            self.wf(),
            node.idx < self.ops_spec().len(),
        ensures
            r@ == self.vals_spec()[node.idx as int],
    {
        let b = &self.values[node.idx];
        let mut v: Vec<i64> = Vec::new();
        match b.read(b.size()) {
            Ok(w) => {
                v = w;
            },
            Err(_) => {},
        }
        assert(b@.subrange(0, b@.len() as int) =~= b@);
        v
    }

    /// The gradients of `node`, if it takes part in backpropagation.
    pub fn gradients(&self, node: Node) -> (r: Option<Vec<i64>>)
        requires
            self.wf(),
            node.idx < self.ops_spec().len(),
        ensures
            r matches Some(v) ==> self.grads_spec()[node.idx as int] == Some(v@),
            r is None ==> self.grads_spec()[node.idx as int] is None,
    {
        assert(opt_view(self.gradients@[node.idx as int]) == self.grads_spec()[node.idx as int]);
        match &self.gradients[node.idx] {
            None => None,
            Some(b) => {
                let mut v: Vec<i64> = Vec::new();
                match b.read(b.size()) {
                    Ok(w) => {
                        v = w;
                    },
                    Err(_) => {},
                }
                assert(b@.subrange(0, b@.len() as int) =~= b@);
                Some(v)
            },
        }
    }

    /// Copies `src` into the values of `node`; it must hold exactly as many elements.
    pub fn set_values(&mut self, node: Node, src: &[i64]) -> (r: Result<(), DeviceError>)
        requires
            old(self).wf(),
            node.idx < old(self).ops_spec().len(),
        ensures
            final(self).wf(),
            final(self).ops_spec() == old(self).ops_spec(),
            final(self).shapes_spec() == old(self).shapes_spec(),
            final(self).grads_spec() == old(self).grads_spec(),
            src@.len() != old(self).vals_spec()[node.idx as int].len() <==> r == Err::<(), DeviceError>(
                DeviceError::ExpectedIllegalAddressAccess,
            ),
            src@.len() == old(self).vals_spec()[node.idx as int].len() <==> r is Ok,
            r is Err ==> final(self).vals_spec() == old(self).vals_spec(),
            r is Ok ==> final(self).vals_spec() == old(self).vals_spec().update(node.idx as int, src@),
    {
        assert(self.values@[node.idx as int]@ == self.vals_spec()[node.idx as int]);
        if src.len() != self.values[node.idx].size() {
            return Err(DeviceError::ExpectedIllegalAddressAccess);
        }
        let mut v: Vec<i64> = Vec::new();
        let mut i: usize = 0;
        while i < src.len()
            invariant
                i <= src@.len(),
                v@ == src@.subrange(0, i as int),
            decreases src@.len() - i,
        {
            v.push(src[i]);
            i = i + 1;
            assert(v@ =~= src@.subrange(0, i as int));
        }
        assert(v@ =~= src@);
        self.replace_values(node.idx, v);
        Ok(())
    }

    /// Copies `src` into the gradient buffer of `node`, which must have one of exactly
    /// that many elements: this seeds the upstream gradient of an output.
    pub fn set_gradients(&mut self, node: Node, src: &[i64]) -> (r: Result<(), DeviceError>)
        requires
            old(self).wf(),
            node.idx < old(self).ops_spec().len(),
        ensures
            final(self).wf(),
            final(self).ops_spec() == old(self).ops_spec(),
            final(self).shapes_spec() == old(self).shapes_spec(),
            final(self).vals_spec() == old(self).vals_spec(),
            (old(self).grads_spec()[node.idx as int] matches Some(g) && g.len() == src@.len()) <==> r is Ok,
            r is Err ==> r == Err::<(), DeviceError>(DeviceError::ExpectedIllegalAddressAccess)
                && final(self).grads_spec() == old(self).grads_spec(),
            r is Ok ==> final(self).grads_spec() == old(self).grads_spec().update(node.idx as int, Some(src@)),
    {
        assert(opt_view(self.gradients@[node.idx as int]) == self.grads_spec()[node.idx as int]);
        let len = match &self.gradients[node.idx] {
            None => {
                return Err(DeviceError::ExpectedIllegalAddressAccess);
            },
            Some(g) => g.size(),
        };
        if src.len() != len {
            return Err(DeviceError::ExpectedIllegalAddressAccess);
        }
        let mut v: Vec<i64> = Vec::new();
        let mut i: usize = 0;
        while i < src.len()
            invariant
                i <= src@.len(),
                v@ == src@.subrange(0, i as int),
            decreases src@.len() - i,
        {
            v.push(src[i]);
            i = i + 1;
            assert(v@ =~= src@.subrange(0, i as int));
        }
        assert(v@ =~= src@);
        self.replace_gradients(node.idx, v);
        Ok(())
    }
}

} // verus!
