use vstd::prelude::*;

use crate::buffer::DeviceBuffer;
use crate::shape::Shape;

verus! {

/// A value buffer with an optional gradient buffer of the same capacity. The gradient
/// buffer is there exactly when the tensor takes part in backpropagation.
#[derive(Debug)]
pub struct Tensor {
    pub shape: Shape,
    pub values: DeviceBuffer<i64>,
    pub gradients: Option<DeviceBuffer<i64>>,
}

impl Tensor {
    pub open spec fn wf(&self) -> bool {
        &&& self.shape.wf()
        &&& self.values@.len() == self.shape.size_spec()
        &&& self.gradients matches Some(g) ==> g@.len() == self.values@.len()
    }

    /// A zeroed tensor of the given shape, with a zeroed gradient buffer if `requires_grad`.
    pub fn new(shape: Shape, requires_grad: bool) -> (r: Tensor)
        requires
            shape.wf(),
        ensures
            r.wf(),
            r.shape == shape,
            r.values@ == Seq::new(shape.size_spec(), |_i: int| 0i64),
            r.gradients is Some <==> requires_grad,
            r.gradients matches Some(g) ==> g@ == Seq::new(shape.size_spec(), |_i: int| 0i64),
    {
        let size = shape.size();
        let gradients = if requires_grad {
            Some(DeviceBuffer::new(size, 0i64))
        } else {
            None
        };
        Tensor { shape, values: DeviceBuffer::new(size, 0i64), gradients }
    }

    /// Sets every gradient element to zero; a tensor without gradients is left as it is.
    pub fn zero_grad(&mut self)
        ensures
            final(self).shape == old(self).shape,
            final(self).values == old(self).values,
            final(self).gradients is Some <==> old(self).gradients is Some,
            old(self).gradients matches Some(g0) ==> (final(self).gradients matches Some(g) && g@
                == Seq::new(g0@.len(), |_i: int| 0i64)),
    {
        match &self.gradients {
            None => {},
            Some(g) => {
                let z = DeviceBuffer::new(g.size(), 0i64);
                self.gradients = Some(z);
            },
        }
    }
}

} // verus!
