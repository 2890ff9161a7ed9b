use vstd::prelude::*;

verus! {

/// The logical extent of a 2-D tensor: `rows` by `cols`, stored column-major.
#[derive(Clone, Copy, Debug, PartialEq, Eq, Structural)]
pub struct Shape {
    pub rows: usize,
    pub cols: usize,
}

impl Shape {
    pub open spec fn size_spec(&self) -> nat {
        (self.rows * self.cols) as nat
    }

    /// Every shape holds a number of elements that a `usize` can count.
    pub open spec fn wf(&self) -> bool {
        self.rows * self.cols <= usize::MAX
    }

    pub fn new(rows: usize, cols: usize) -> (r: Shape)
        requires
            rows * cols <= usize::MAX,
        ensures
            r.rows == rows,
            r.cols == cols,
            r.wf(),
    {
        Shape { rows, cols }
    }

    pub fn rows(&self) -> (r: usize)
        ensures
            r == self.rows,
    {
        self.rows
    }

    pub fn cols(&self) -> (r: usize)
        ensures
            r == self.cols,
    {
        self.cols
    }

    pub fn size(&self) -> (r: usize)
        requires
            self.wf(),
        ensures
            r == self.size_spec(),
    {
        self.rows * self.cols
    }

    pub fn transpose(&self) -> (r: Shape)
        requires
            self.wf(),
        ensures
            r.rows == self.cols,
            r.cols == self.rows,
            r.wf(),
    {
        proof {
            vstd::arithmetic::mul::lemma_mul_is_commutative(self.rows as int, self.cols as int);
        }
        Shape { rows: self.cols, cols: self.rows }
    }

    /// The shape of the matrix product `self * rhs`.
    pub fn matmul(&self, rhs: &Shape) -> (r: Shape)
        requires
            self.cols == rhs.rows,
            self.rows * rhs.cols <= usize::MAX,
        ensures
            r.rows == self.rows,
            r.cols == rhs.cols,
            r.wf(),
    {
        Shape { rows: self.rows, cols: rhs.cols }
    }
}

} // verus!
