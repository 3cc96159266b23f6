use vstd::prelude::*;
use crate::array::{pointwise, uniform, zip_outcome, CpuArray, Element};
use crate::dtype::DType;
use crate::error::ArrayError;
use crate::shape::{axis_plan, index_in, offset, shape_size};

verus! {

/// Where an array lives.
#[derive(Clone, Copy, Debug, PartialEq, Eq, Structural)]
pub enum Backend {
    Cpu,
    Metal,
}

/// An array on one backend. `Metal` is a reserved tag with no kernels: every
/// operation on it reports `BackendUnsupported`.
pub enum BackendData<S, D> {
    Cpu(CpuArray<S, D>),
    Metal,
}

/// The CPU array inside a result; `BackendUnsupported` for a result on another backend.
pub open spec fn on_cpu<S, D>(r: Result<BackendData<S, D>, ArrayError>) -> Result<CpuArray<S, D>, ArrayError> {
    match r {
        Ok(BackendData::Cpu(x)) => Ok(x),
        Ok(BackendData::Metal) => Err(ArrayError::BackendUnsupported),
        Err(e) => Err(e),
    }
}

/// The error for an operation on two arrays of which at least one is not on the CPU.
pub open spec fn pairing_error<S, D>(a: BackendData<S, D>, b: BackendData<S, D>) -> ArrayError {
    match (a, b) {
        (BackendData::Metal, BackendData::Metal) => ArrayError::BackendUnsupported,
        _ => ArrayError::BackendMismatch,
    }
}

/// The error for a pair of operands that are not both on the CPU.
fn pairing<S, D>(a: &BackendData<S, D>, b: &BackendData<S, D>) -> (r: ArrayError)
    ensures
        r == pairing_error(*a, *b),
{
    match (a, b) {
        (BackendData::Metal, BackendData::Metal) => ArrayError::BackendUnsupported,
        _ => ArrayError::BackendMismatch,
    }
}

impl<S: Copy, D: Copy> BackendData<S, D> {
    /// The backend the array lives on.
    pub open spec fn spec_backend(&self) -> Backend {
        match self {
            BackendData::Cpu(_) => Backend::Cpu,
            BackendData::Metal => Backend::Metal,
        }
    }

    /// The array is well formed on its backend.
    pub open spec fn wf(&self) -> bool {
        match self {
            BackendData::Cpu(x) => x.wf(),
            BackendData::Metal => true,
        }
    }

    /// The extents of the array; none for a backend without kernels.
    pub open spec fn dims(&self) -> Seq<usize> {
        match self {
            BackendData::Cpu(x) => x.dims(),
            BackendData::Metal => seq![],
        }
    }

    /// The backend the array lives on.
    pub fn backend(&self) -> (r: Backend)
        ensures
            r == self.spec_backend(),
    {
        match self {
            BackendData::Cpu(_) => Backend::Cpu,
            BackendData::Metal => Backend::Metal,
        }
    }

    /// A new array on the same backend as `self`, of the given shape and dtype,
    /// whose every element is the zero of its dtype (`zs` or `zd`).
    pub fn zeros(&self, shape: Vec<usize>, dtype: DType, zs: S, zd: D) -> (r: Self)
        requires
            shape_size(shape@) <= usize::MAX,
        ensures
            r.spec_backend() == self.spec_backend(),
            r.wf(),
            r.spec_backend() == Backend::Cpu ==> r.dims() == shape@,
            match r {
                BackendData::Cpu(x) => x.spec_dtype() == dtype && x.len() == shape_size(shape@) && uniform(x, zs, zd),
                BackendData::Metal => true,
            },
    {
        match self {
            BackendData::Cpu(_) => BackendData::Cpu(CpuArray::zeros(shape, dtype, zs, zd)),
            BackendData::Metal => BackendData::Metal,
        }
    }

    /// A new array on the same backend as `self`, of the given shape and dtype,
    /// whose every element is the one of its dtype (`os` or `od`).
    pub fn ones(&self, shape: Vec<usize>, dtype: DType, os: S, od: D) -> (r: Self)
        requires
            shape_size(shape@) <= usize::MAX,
        ensures
            r.spec_backend() == self.spec_backend(),
            r.wf(),
            r.spec_backend() == Backend::Cpu ==> r.dims() == shape@,
            match r {
                BackendData::Cpu(x) => x.spec_dtype() == dtype && x.len() == shape_size(shape@) && uniform(x, os, od),
                BackendData::Metal => true,
            },
    {
        match self {
            BackendData::Cpu(_) => BackendData::Cpu(CpuArray::ones(shape, dtype, os, od)),
            BackendData::Metal => BackendData::Metal,
        }
    }

    /// A new array on the same backend as `self`, of the given shape and dtype,
    /// with every element `value` (narrowed by `narrow` for `F32`).
    pub fn fill<N: Fn(D) -> S>(&self, value: D, shape: Vec<usize>, dtype: DType, narrow: &N) -> (r: Self)
        requires
            shape_size(shape@) <= usize::MAX,
            call_requires(*narrow, (value,)),
        ensures
            r.spec_backend() == self.spec_backend(),
            r.wf(),
            r.spec_backend() == Backend::Cpu ==> r.dims() == shape@,
            match r {
                BackendData::Cpu(x) => x.spec_dtype() == dtype && x.len() == shape_size(shape@)
                    && (dtype == DType::F64 ==> forall|i: int| 0 <= i < x.len() ==> #[trigger] x.element_at(i) == Element::<S, D>::F64(value))
                    && (dtype == DType::F32 ==> exists|v: S| call_ensures(*narrow, (value,), v)
                        && forall|i: int| 0 <= i < x.len() ==> #[trigger] x.element_at(i) == Element::<S, D>::F32(v)),
                BackendData::Metal => true,
            },
    {
        match self {
            BackendData::Cpu(_) => BackendData::Cpu(CpuArray::fill(value, shape, dtype, narrow)),
            BackendData::Metal => BackendData::Metal,
        }
    }

    /// Elementwise sum on the CPU (see `CpuArray::add`); `BackendMismatch` across
    /// backends, `BackendUnsupported` on a backend without kernels.
    pub fn add<FS: Fn(S, S) -> S, FD: Fn(D, D) -> D>(&self, rhs: &Self, fs: FS, fd: FD) -> (r: Result<Self, ArrayError>)
        requires
            self.wf(),
            rhs.wf(),
            forall|x: S, y: S| call_requires(fs, (x, y)),
            forall|x: D, y: D| call_requires(fd, (x, y)),
        ensures
            binary_outcome(*self, *rhs, r, fs, fd),
    {
        match (self, rhs) {
            (BackendData::Cpu(a), BackendData::Cpu(b)) => match a.add(b, fs, fd) {
                Ok(c) => Ok(BackendData::Cpu(c)),
                Err(e) => Err(e),
            },
            _ => Err(pairing(self, rhs)),
        }
    }

    /// Elementwise difference on the CPU (see `CpuArray::sub`); `BackendMismatch`
    /// across backends, `BackendUnsupported` on a backend without kernels.
    pub fn sub<FS: Fn(S, S) -> S, FD: Fn(D, D) -> D>(&self, rhs: &Self, fs: FS, fd: FD) -> (r: Result<Self, ArrayError>)
        requires
            self.wf(),
            rhs.wf(),
            forall|x: S, y: S| call_requires(fs, (x, y)),
            forall|x: D, y: D| call_requires(fd, (x, y)),
        ensures
            binary_outcome(*self, *rhs, r, fs, fd),
    {
        match (self, rhs) {
            (BackendData::Cpu(a), BackendData::Cpu(b)) => match a.sub(b, fs, fd) {
                Ok(c) => Ok(BackendData::Cpu(c)),
                Err(e) => Err(e),
            },
            _ => Err(pairing(self, rhs)),
        }
    }

    /// Elementwise product on the CPU (see `CpuArray::mul`); `BackendMismatch`
    /// across backends, `BackendUnsupported` on a backend without kernels.
    pub fn mul<FS: Fn(S, S) -> S, FD: Fn(D, D) -> D>(&self, rhs: &Self, fs: FS, fd: FD) -> (r: Result<Self, ArrayError>)
        requires
            self.wf(),
            rhs.wf(),
            forall|x: S, y: S| call_requires(fs, (x, y)),
            forall|x: D, y: D| call_requires(fd, (x, y)),
        ensures
            binary_outcome(*self, *rhs, r, fs, fd),
    {
        match (self, rhs) {
            (BackendData::Cpu(a), BackendData::Cpu(b)) => match a.mul(b, fs, fd) {
                Ok(c) => Ok(BackendData::Cpu(c)),
                Err(e) => Err(e),
            },
            _ => Err(pairing(self, rhs)),
        }
    }

    /// Elementwise quotient on the CPU (see `CpuArray::div`); `BackendMismatch`
    /// across backends, `BackendUnsupported` on a backend without kernels.
    pub fn div<FS: Fn(S, S) -> S, FD: Fn(D, D) -> D>(&self, rhs: &Self, fs: FS, fd: FD) -> (r: Result<Self, ArrayError>)
        requires
            self.wf(),
            rhs.wf(),
            forall|x: S, y: S| call_requires(fs, (x, y)),
            forall|x: D, y: D| call_requires(fd, (x, y)),
        ensures
            binary_outcome(*self, *rhs, r, fs, fd),
    {
        match (self, rhs) {
            (BackendData::Cpu(a), BackendData::Cpu(b)) => match a.div(b, fs, fd) {
                Ok(c) => Ok(BackendData::Cpu(c)),
                Err(e) => Err(e),
            },
            _ => Err(pairing(self, rhs)),
        }
    }

    /// Matrix product on the CPU (see `CpuArray::matmul`); `BackendMismatch`
    /// across backends, `BackendUnsupported` on a backend without kernels.
    pub fn matmul<MS: Fn(S, S, S) -> S, MD: Fn(D, D, D) -> D>(
        &self,
        rhs: &Self,
        zs: S,
        ms: &MS,
        zd: D,
        md: &MD,
    ) -> (r: Result<Self, ArrayError>)
        requires
            self.wf(),
            rhs.wf(),
            forall|a: S, x: S, y: S| call_requires(*ms, (a, x, y)),
            forall|a: D, x: D, y: D| call_requires(*md, (a, x, y)),
            self.dims().len() == 2 && rhs.dims().len() == 2 ==> self.dims()[0] * rhs.dims()[1] <= usize::MAX,
        ensures
            r.is_ok() ==> r.unwrap().spec_backend() == Backend::Cpu,
            match (*self, *rhs) {
                (BackendData::Cpu(x), BackendData::Cpu(y)) => {
                    &&& (on_cpu(r) == Err::<CpuArray<S, D>, _>(ArrayError::DTypeMismatch) <==> x.spec_dtype() != y.spec_dtype())
                    &&& (on_cpu(r).is_ok() ==> on_cpu(r).unwrap().spec_dtype() == x.spec_dtype())
                    &&& match (x, y) {
                        (CpuArray::F32Array(p), CpuArray::F32Array(q)) => crate::dense::product_of(p, q, zs, *ms, crate::array::single(on_cpu(r))),
                        (CpuArray::F64Array(p), CpuArray::F64Array(q)) => crate::dense::product_of(p, q, zd, *md, crate::array::double(on_cpu(r))),
                        _ => true,
                    }
                },
                _ => r == Err::<Self, _>(pairing_error(*self, *rhs)),
            },
    {
        match (self, rhs) {
            (BackendData::Cpu(a), BackendData::Cpu(b)) => match a.matmul(b, zs, ms, zd, md) {
                Ok(c) => Ok(BackendData::Cpu(c)),
                Err(e) => Err(e),
            },
            _ => Err(pairing(self, rhs)),
        }
    }

    /// Rectified linear unit of each element on the CPU (see `CpuArray::relu`);
    /// `BackendUnsupported` on a backend without kernels.
    pub fn relu<FS: Fn(S) -> S, FD: Fn(D) -> D>(&self, fs: FS, fd: FD) -> (r: Result<Self, ArrayError>)
        requires
            self.wf(),
            forall|x: S| call_requires(fs, (x,)),
            forall|x: D| call_requires(fd, (x,)),
        ensures
            unary_outcome(*self, r, fs, fd),
    {
        match self {
            BackendData::Cpu(a) => Ok(BackendData::Cpu(a.relu(fs, fd))),
            BackendData::Metal => Err(ArrayError::BackendUnsupported),
        }
    }

    /// Exponential of each element on the CPU (see `CpuArray::exp`);
    /// `BackendUnsupported` on a backend without kernels.
    pub fn exp<FS: Fn(S) -> S, FD: Fn(D) -> D>(&self, fs: FS, fd: FD) -> (r: Result<Self, ArrayError>)
        requires
            self.wf(),
            forall|x: S| call_requires(fs, (x,)),
            forall|x: D| call_requires(fd, (x,)),
        ensures
            unary_outcome(*self, r, fs, fd),
    {
        match self {
            BackendData::Cpu(a) => Ok(BackendData::Cpu(a.exp(fs, fd))),
            BackendData::Metal => Err(ArrayError::BackendUnsupported),
        }
    }

    /// Reduction along the axes `dims` on the CPU (see `CpuArray::sum`);
    /// `BackendUnsupported` on a backend without kernels.
    pub fn sum<FS: Fn(S, S) -> S, FD: Fn(D, D) -> D>(&self, dims: &Vec<usize>, zs: S, fs: &FS, zd: D, fd: &FD) -> (r: Result<Self, ArrayError>)
        requires
            self.wf(),
            crate::dense::reduction_fits(self.dims(), axis_plan(dims@, self.dims().len() as nat)),
            forall|x: S, y: S| call_requires(*fs, (x, y)),
            forall|x: D, y: D| call_requires(*fd, (x, y)),
        ensures
            r.is_ok() ==> r.unwrap().spec_backend() == Backend::Cpu,
            match *self {
                BackendData::Cpu(x) => {
                    &&& (on_cpu(r).is_ok() ==> on_cpu(r).unwrap().spec_dtype() == x.spec_dtype())
                    &&& match x {
                        CpuArray::F32Array(p) => crate::dense::sum_of(p, dims@, zs, *fs, crate::array::single(on_cpu(r))),
                        CpuArray::F64Array(p) => crate::dense::sum_of(p, dims@, zd, *fd, crate::array::double(on_cpu(r))),
                    }
                },
                BackendData::Metal => r == Err::<Self, _>(ArrayError::BackendUnsupported),
            },
    {
        match self {
            BackendData::Cpu(a) => match a.sum(dims, zs, fs, zd, fd) {
                Ok(c) => Ok(BackendData::Cpu(c)),
                Err(e) => Err(e),
            },
            BackendData::Metal => Err(ArrayError::BackendUnsupported),
        }
    }

    /// All axes reversed on the CPU (see `CpuArray::transpose`);
    /// `BackendUnsupported` on a backend without kernels.
    pub fn transpose(&self) -> (r: Result<Self, ArrayError>)
        requires
            self.wf(),
        ensures
            match *self {
                BackendData::Cpu(x) => match r {
                    Ok(BackendData::Cpu(z)) => crate::array::transposed(x, z),
                    _ => false,
                },
                BackendData::Metal => r == Err::<Self, _>(ArrayError::BackendUnsupported),
            },
    {
        match self {
            BackendData::Cpu(a) => Ok(BackendData::Cpu(a.transpose())),
            BackendData::Metal => Err(ArrayError::BackendUnsupported),
        }
    }

    /// A copy of the array's extents; empty on a backend without kernels.
    pub fn shape(&self) -> (r: Vec<usize>)
        ensures
            r@ == self.dims(),
    {
        match self {
            BackendData::Cpu(a) => a.shape(),
            BackendData::Metal => Vec::new(),
        }
    }

    /// Element at the multi-index `index` on the CPU (see `CpuArray::get`); `None`
    /// on a backend without kernels.
    pub fn get(&self, index: &Vec<usize>) -> (r: Option<Element<S, D>>)
        requires
            self.wf(),
        ensures
            match *self {
                BackendData::Cpu(x) => {
                    &&& (r.is_some() <==> index_in(x.dims(), index@))
                    &&& (r.is_some() ==> r.unwrap() == x.element_at(offset(x.dims(), index@) as int))
                },
                BackendData::Metal => r.is_none(),
            },
    {
        match self {
            BackendData::Cpu(a) => a.get(index),
            BackendData::Metal => None,
        }
    }

    /// Overwrites this array with `other` on the CPU (see `CpuArray::copy_from`);
    /// `BackendMismatch` across backends, `BackendUnsupported` on a backend without
    /// kernels. On an error the array is unchanged.
    pub fn copy_from(&mut self, other: &Self) -> (r: Result<(), ArrayError>)
        requires
            old(self).wf(),
            other.wf(),
        ensures
            final(self).wf(),
            r.is_err() ==> *final(self) == *old(self),
            match (*old(self), *other) {
                (BackendData::Cpu(x), BackendData::Cpu(y)) => {
                    &&& (r == Err::<(), _>(ArrayError::DTypeMismatch) <==> x.spec_dtype() != y.spec_dtype())
                    &&& (r == Err::<(), _>(ArrayError::ShapeMismatch) <==> x.spec_dtype() == y.spec_dtype() && x.dims() != y.dims())
                    &&& (r.is_ok() <==> x.spec_dtype() == y.spec_dtype() && x.dims() == y.dims())
                    &&& (r.is_ok() ==> match *final(self) {
                        BackendData::Cpu(z) => z.spec_dtype() == y.spec_dtype() && z.dims() == y.dims() && z.elements() == y.elements(),
                        BackendData::Metal => false,
                    })
                },
                _ => r == Err::<(), _>(pairing_error(*old(self), *other)),
            },
    {
        let e = pairing(self, other);
        match (self, other) {
            (BackendData::Cpu(a), BackendData::Cpu(b)) => a.copy_from(b),
            _ => Err(e),
        }
    }
}

/// What an elementwise operation on `a` and `b` returns: on two CPU arrays, what
/// `CpuArray`'s operation returns; otherwise `BackendMismatch` across backends and
/// `BackendUnsupported` on a backend without kernels.
pub open spec fn binary_outcome<S: Copy, D: Copy, FS: Fn(S, S) -> S, FD: Fn(D, D) -> D>(
    a: BackendData<S, D>,
    b: BackendData<S, D>,
    r: Result<BackendData<S, D>, ArrayError>,
    fs: FS,
    fd: FD,
) -> bool {
    match (a, b) {
        (BackendData::Cpu(x), BackendData::Cpu(y)) => (r.is_ok() ==> r.unwrap().spec_backend() == Backend::Cpu)
            && zip_outcome(x, y, on_cpu(r), fs, fd),
        _ => r == Err::<BackendData<S, D>, _>(pairing_error(a, b)),
    }
}

/// What an elementwise map of `a` returns: on a CPU array, the map of its
/// elements; otherwise `BackendUnsupported`.
pub open spec fn unary_outcome<S: Copy, D: Copy, FS: Fn(S) -> S, FD: Fn(D) -> D>(
    a: BackendData<S, D>,
    r: Result<BackendData<S, D>, ArrayError>,
    fs: FS,
    fd: FD,
) -> bool {
    match a {
        BackendData::Cpu(x) => match r {
            Ok(BackendData::Cpu(z)) => pointwise(x, z, fs, fd),
            _ => false,
        },
        BackendData::Metal => r == Err::<BackendData<S, D>, _>(ArrayError::BackendUnsupported),
    }
}

} // verus!
