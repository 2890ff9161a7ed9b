use vstd::prelude::*;

verus! {

/// What a kernel reports when it cannot run.
#[derive(Clone, Copy, Debug, PartialEq, Eq, Structural)]
pub enum DeviceError {
    /// The requested logical size exceeds the capacity of a buffer the kernel touches.
    ExpectedIllegalAddressAccess,
    /// An intermediate or final value does not fit the element type.
    Overflow,
}

/// A handle to the backend through which kernels are issued. It holds no graph state.
#[derive(Clone, Copy, Debug)]
pub struct ExecutionContext {}

impl ExecutionContext {
    pub fn new() -> (r: ExecutionContext) {
        ExecutionContext {  }
    }
}

/// Succeeds exactly when `size` is within every one of the given capacities; this is the
/// check a kernel makes on all the buffers it touches before it touches any.
pub fn check_capacities(size: usize, capacities: &[usize]) -> (r: Result<(), DeviceError>)
    ensures
        r is Ok <==> forall|i: int| 0 <= i < capacities@.len() ==> size <= #[trigger] capacities@[i],
        r is Err ==> r == Err::<(), DeviceError>(DeviceError::ExpectedIllegalAddressAccess),
{
    let mut i: usize = 0;
    while i < capacities.len()
        invariant
            i <= capacities@.len(),
            forall|j: int| 0 <= j < i ==> size <= #[trigger] capacities@[j],
        decreases capacities@.len() - i,
    {
        if size > capacities[i] {
            return Err(DeviceError::ExpectedIllegalAddressAccess);
        }
        i = i + 1;
    }
    Ok(())
}

/// An owned block of storage of fixed capacity. Every access is checked against
/// that capacity before it is made.
#[derive(Debug)]
pub struct DeviceBuffer<T> {
    data: Vec<T>,
}

impl<T> View for DeviceBuffer<T> {
    type V = Seq<T>;

    closed spec fn view(&self) -> Seq<T> {
        self.data@
    }
}

impl<T: Copy> DeviceBuffer<T> {
    /// A buffer of capacity `size`, every element set to `value`.
    pub fn new(size: usize, value: T) -> (r: DeviceBuffer<T>)
        ensures
            r@ == Seq::new(size as nat, |_i: int| value),
    {
        let mut data: Vec<T> = Vec::new();
        let mut i: usize = 0;
        while i < size
            invariant
                i <= size,
                data@ == Seq::new(i as nat, |_j: int| value),
            decreases size - i,
        {
            data.push(value);
            i = i + 1;
        }
        DeviceBuffer { data }
    }

    /// A buffer that takes over `data`; its capacity is the length of `data`.
    pub fn from_vec(data: Vec<T>) -> (r: DeviceBuffer<T>)
        ensures
            r@ == data@,
    {
        DeviceBuffer { data }
    }

    /// A second buffer with the same contents.
    pub fn duplicate(&self) -> (r: DeviceBuffer<T>)
        ensures
            r@ == self@,
    {
        let mut data: Vec<T> = Vec::new();
        let mut i: usize = 0;
        while i < self.data.len()
            invariant
                i <= self@.len(),
                data@ == self@.subrange(0, i as int),
            decreases self@.len() - i,
        {
            data.push(self.data[i]);
            i = i + 1;
            assert(data@ =~= self@.subrange(0, i as int));
        }
        assert(data@ =~= self@);
        DeviceBuffer { data }
    }

    /// The capacity of the buffer.
    pub fn size(&self) -> (r: usize)
        ensures
            r == self@.len(),
    {
        self.data.len()
    }

    pub fn get(&self, i: usize) -> (r: T)
        requires
            i < self@.len(),
        ensures
            r == self@[i as int],
    {
        self.data[i]
    }

    pub fn set(&mut self, i: usize, value: T)
        requires
            i < old(self)@.len(),
        ensures
            final(self)@ == old(self)@.update(i as int, value),
    {
        self.data.set(i, value);
    }

    /// Writes `value` into the first `size` elements.
    pub fn fill(&mut self, size: usize, value: T) -> (r: Result<(), DeviceError>)
        ensures
            size > old(self)@.len() <==> r == Err::<(), DeviceError>(
                DeviceError::ExpectedIllegalAddressAccess,
            ),
            size <= old(self)@.len() <==> r is Ok,
            r is Err ==> final(self)@ == old(self)@,
            r is Ok ==> final(self)@ == Seq::new(size as nat, |_i: int| value) + old(self)@.subrange(
                size as int,
                old(self)@.len() as int,
            ),
    {
        if size > self.data.len() {
            return Err(DeviceError::ExpectedIllegalAddressAccess);
        }
        let mut i: usize = 0;
        while i < size
            invariant
                i <= size <= self@.len(),
                self@.len() == old(self)@.len(),
                forall|j: int| 0 <= j < i ==> self@[j] == value,
                forall|j: int| i <= j < self@.len() ==> self@[j] == old(self)@[j],
            decreases size - i,
        {
            self.data.set(i, value);
            i = i + 1;
        }
        assert(self@ =~= Seq::new(size as nat, |_i: int| value) + old(self)@.subrange(
            size as int,
            old(self)@.len() as int,
        ));
        Ok(())
    }

    /// Copies the first `size` elements of `src` into the start of the buffer.
    pub fn load_from_slice(&mut self, size: usize, src: &[T]) -> (r: Result<(), DeviceError>)
        ensures
            size > old(self)@.len() || size > src@.len() <==> r == Err::<(), DeviceError>(
                DeviceError::ExpectedIllegalAddressAccess,
            ),
            size <= old(self)@.len() && size <= src@.len() <==> r is Ok,
            r is Err ==> final(self)@ == old(self)@,
            r is Ok ==> final(self)@ == src@.subrange(0, size as int) + old(self)@.subrange(
                size as int,
                old(self)@.len() as int,
            ),
    {
        if size > self.data.len() || size > src.len() {
            return Err(DeviceError::ExpectedIllegalAddressAccess);
        }
        let mut i: usize = 0;
        while i < size
            invariant
                i <= size <= self@.len(),
                size <= src@.len(),
                self@.len() == old(self)@.len(),
                forall|j: int| 0 <= j < i ==> self@[j] == src@[j],
                forall|j: int| i <= j < self@.len() ==> self@[j] == old(self)@[j],
            decreases size - i,
        {
            self.data.set(i, src[i]);
            i = i + 1;
        }
        assert(self@ =~= src@.subrange(0, size as int) + old(self)@.subrange(
            size as int,
            old(self)@.len() as int,
        ));
        Ok(())
    }

    /// The first `size` elements of the buffer.
    pub fn read(&self, size: usize) -> (r: Result<Vec<T>, DeviceError>)
        ensures
            size > self@.len() <==> r == Err::<Vec<T>, DeviceError>(
                DeviceError::ExpectedIllegalAddressAccess,
            ),
            size <= self@.len() <==> r is Ok,
            r matches Ok(v) ==> v@ == self@.subrange(0, size as int),
    {
        if size > self.data.len() {
            return Err(DeviceError::ExpectedIllegalAddressAccess);
        }
        let mut v: Vec<T> = Vec::new();
        let mut i: usize = 0;
        while i < size
            invariant
                i <= size <= self@.len(),
                v@ == self@.subrange(0, i as int),
            decreases size - i,
        {
            v.push(self.data[i]);
            i = i + 1;
            assert(v@ =~= self@.subrange(0, i as int));
        }
        Ok(v)
    }
}

} // verus!
