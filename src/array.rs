use vstd::prelude::*;
use crate::dense::{product_of, sum_of, Dense};
use crate::dtype::DType;
use crate::error::ArrayError;
use crate::shape::{axis_plan, index_in, offset, reversed, shape_size};

verus! {

/// An element read out of an array, tagged with its dtype.
#[derive(Clone, Copy, Debug, PartialEq, Eq)]
pub enum Element<S, D> {
    F32(S),
    F64(D),
}

/// A CPU array of one of the supported dtypes. `S` is the single-precision and `D`
/// the double-precision element type.
pub enum CpuArray<S, D> {
    F32Array(Dense<S>),
    F64Array(Dense<D>),
}

/// `z` is `f` applied to each pair of corresponding elements of `x` and `y`.
pub open spec fn zipped<T: Copy, F: Fn(T, T) -> T>(x: Dense<T>, y: Dense<T>, z: Dense<T>, f: F) -> bool {
    &&& z.wf()
    &&& z.dims() == x.dims()
    &&& z.elems().len() == x.elems().len()
    &&& forall|i: int| 0 <= i < z.elems().len() ==> call_ensures(f, (x.at(i), y.at(i)), #[trigger] z.at(i))
}

/// `z` is `f` applied to each element of `x`.
pub open spec fn mapped<T: Copy, F: Fn(T) -> T>(x: Dense<T>, z: Dense<T>, f: F) -> bool {
    &&& z.wf()
    &&& z.dims() == x.dims()
    &&& z.elems().len() == x.elems().len()
    &&& forall|i: int| 0 <= i < z.elems().len() ==> call_ensures(f, (x.at(i),), #[trigger] z.at(i))
}

impl<S: Copy, D: Copy> CpuArray<S, D> {
    /// The element type of the array.
    pub open spec fn spec_dtype(&self) -> DType {
        match self {
            CpuArray::F32Array(_) => DType::F32,
            CpuArray::F64Array(_) => DType::F64,
        }
    }

    /// The extents of the array.
    pub open spec fn dims(&self) -> Seq<usize> {
        match self {
            CpuArray::F32Array(a) => a.dims(),
            CpuArray::F64Array(a) => a.dims(),
        }
    }

    /// The buffer holds one element per position of the shape.
    pub open spec fn wf(&self) -> bool {
        match self {
            CpuArray::F32Array(a) => a.wf(),
            CpuArray::F64Array(a) => a.wf(),
        }
    }

    /// Element at row-major position `i`.
    pub open spec fn element_at(&self, i: int) -> Element<S, D> {
        match self {
            CpuArray::F32Array(a) => Element::F32(a.at(i)),
            CpuArray::F64Array(a) => Element::F64(a.at(i)),
        }
    }

    /// The elements in row-major order.
    pub open spec fn elements(&self) -> Seq<Element<S, D>> {
        Seq::new(self.len(), |i: int| self.element_at(i))
    }

    /// Number of elements.
    pub open spec fn len(&self) -> nat {
        match self {
            CpuArray::F32Array(a) => a.elems().len(),
            CpuArray::F64Array(a) => a.elems().len(),
        }
    }

    /// The element type of the array.
    pub fn dtype(&self) -> (r: DType)
        ensures
            r == self.spec_dtype(),
    {
        match self {
            CpuArray::F32Array(_) => DType::F32,
            CpuArray::F64Array(_) => DType::F64,
        }
    }

    /// A copy of the array's extents.
    pub fn shape(&self) -> (r: Vec<usize>)
        ensures
            r@ == self.dims(),
    {
        match self {
            CpuArray::F32Array(a) => a.shape(),
            CpuArray::F64Array(a) => a.shape(),
        }
    }

    /// An array of the given shape and dtype whose every element is the zero of its
    /// dtype: `zs` for `F32`, `zd` for `F64`.
    pub fn zeros(shape: Vec<usize>, dtype: DType, zs: S, zd: D) -> (r: Self)
        requires
            shape_size(shape@) <= usize::MAX,
        ensures
            r.wf(),
            r.spec_dtype() == dtype,
            r.dims() == shape@,
            r.len() == shape_size(shape@),
            uniform(r, zs, zd),
    {
        match dtype {
            DType::F32 => CpuArray::F32Array(Dense::full(shape, zs)),
            DType::F64 => CpuArray::F64Array(Dense::full(shape, zd)),
        }
    }

    /// An array of the given shape and dtype whose every element is the one of its
    /// dtype: `os` for `F32`, `od` for `F64`.
    pub fn ones(shape: Vec<usize>, dtype: DType, os: S, od: D) -> (r: Self)
        requires
            shape_size(shape@) <= usize::MAX,
        ensures
            r.wf(),
            r.spec_dtype() == dtype,
            r.dims() == shape@,
            r.len() == shape_size(shape@),
            uniform(r, os, od),
    {
        match dtype {
            DType::F32 => CpuArray::F32Array(Dense::full(shape, os)),
            DType::F64 => CpuArray::F64Array(Dense::full(shape, od)),
        }
    }

    /// An array of the given shape and dtype with every element `value`; for `F32`
    /// the value is first narrowed by `narrow`.
    pub fn fill<N: Fn(D) -> S>(value: D, shape: Vec<usize>, dtype: DType, narrow: &N) -> (r: Self)
        requires
            shape_size(shape@) <= usize::MAX,
            call_requires(*narrow, (value,)),
        ensures
            r.wf(),
            r.spec_dtype() == dtype,
            r.dims() == shape@,
            r.len() == shape_size(shape@),
            dtype == DType::F64 ==> forall|i: int| 0 <= i < r.len() ==> #[trigger] r.element_at(i) == Element::<S, D>::F64(value),
            dtype == DType::F32 ==> exists|v: S| call_ensures(*narrow, (value,), v)
                && forall|i: int| 0 <= i < r.len() ==> #[trigger] r.element_at(i) == Element::<S, D>::F32(v),
    {
        match dtype {
            DType::F32 => {
                let v = narrow(value);
                CpuArray::F32Array(Dense::full(shape, v))
            },
            DType::F64 => CpuArray::F64Array(Dense::full(shape, value)),
        }
    }

    /// Elementwise sum, with `fs` or `fd` as the scalar addition.
    pub fn add<FS: Fn(S, S) -> S, FD: Fn(D, D) -> D>(&self, rhs: &Self, fs: FS, fd: FD) -> (r: Result<Self, ArrayError>)
        requires
            self.wf(),
            rhs.wf(),
            forall|x: S, y: S| call_requires(fs, (x, y)),
            forall|x: D, y: D| call_requires(fd, (x, y)),
        ensures
            zip_outcome(*self, *rhs, r, fs, fd),
    {
        self.zip(rhs, fs, fd)
    }

    /// Elementwise difference, with `fs` or `fd` as the scalar subtraction.
    pub fn sub<FS: Fn(S, S) -> S, FD: Fn(D, D) -> D>(&self, rhs: &Self, fs: FS, fd: FD) -> (r: Result<Self, ArrayError>)
        requires
            self.wf(),
            rhs.wf(),
            forall|x: S, y: S| call_requires(fs, (x, y)),
            forall|x: D, y: D| call_requires(fd, (x, y)),
        ensures
            zip_outcome(*self, *rhs, r, fs, fd),
    {
        self.zip(rhs, fs, fd)
    }

    /// Elementwise product, with `fs` or `fd` as the scalar multiplication.
    pub fn mul<FS: Fn(S, S) -> S, FD: Fn(D, D) -> D>(&self, rhs: &Self, fs: FS, fd: FD) -> (r: Result<Self, ArrayError>)
        requires
            self.wf(),
            rhs.wf(),
            forall|x: S, y: S| call_requires(fs, (x, y)),
            forall|x: D, y: D| call_requires(fd, (x, y)),
        ensures
            zip_outcome(*self, *rhs, r, fs, fd),
    {
        self.zip(rhs, fs, fd)
    }

    /// Elementwise quotient, with `fs` or `fd` as the scalar division.
    pub fn div<FS: Fn(S, S) -> S, FD: Fn(D, D) -> D>(&self, rhs: &Self, fs: FS, fd: FD) -> (r: Result<Self, ArrayError>)
        requires
            self.wf(),
            rhs.wf(),
            forall|x: S, y: S| call_requires(fs, (x, y)),
            forall|x: D, y: D| call_requires(fd, (x, y)),
        ensures
            zip_outcome(*self, *rhs, r, fs, fd),
    {
        self.zip(rhs, fs, fd)
    }

    /// Applies `fs` or `fd` to each element.
    fn unary<FS: Fn(S) -> S, FD: Fn(D) -> D>(&self, fs: FS, fd: FD) -> (r: Self)
        requires
            self.wf(),
            forall|x: S| call_requires(fs, (x,)),
            forall|x: D| call_requires(fd, (x,)),
        ensures
            pointwise(*self, r, fs, fd),
    {
        match self {
            CpuArray::F32Array(a) => CpuArray::F32Array(a.map(fs)),
            CpuArray::F64Array(a) => CpuArray::F64Array(a.map(fd)),
        }
    }

    /// Rectified linear unit of each element, with `fs` or `fd` as the scalar
    /// `max(x, 0)`.
    pub fn relu<FS: Fn(S) -> S, FD: Fn(D) -> D>(&self, fs: FS, fd: FD) -> (r: Self)
        requires
            self.wf(),
            forall|x: S| call_requires(fs, (x,)),
            forall|x: D| call_requires(fd, (x,)),
        ensures
            pointwise(*self, r, fs, fd),
    {
        self.unary(fs, fd)
    }

    /// Exponential of each element, with `fs` or `fd` as the scalar exponential.
    pub fn exp<FS: Fn(S) -> S, FD: Fn(D) -> D>(&self, fs: FS, fd: FD) -> (r: Self)
        requires
            self.wf(),
            forall|x: S| call_requires(fs, (x,)),
            forall|x: D| call_requires(fd, (x,)),
        ensures
            pointwise(*self, r, fs, fd),
    {
        self.unary(fs, fd)
    }

    /// Matrix product (see `Dense::matmul`), accumulating with `ms` or `md`.
    /// `DTypeMismatch` where the dtypes differ.
    pub fn matmul<MS: Fn(S, S, S) -> S, MD: Fn(D, D, D) -> D>(
        &self,
        rhs: &Self,
        zs: S,
        ms: &MS,
        zd: D,
        md: &MD,
    ) -> (r: Result<Self, ArrayError>)
        requires
            self.wf(),
            rhs.wf(),
            forall|a: S, x: S, y: S| call_requires(*ms, (a, x, y)),
            forall|a: D, x: D, y: D| call_requires(*md, (a, x, y)),
            self.dims().len() == 2 && rhs.dims().len() == 2 ==> self.dims()[0] * rhs.dims()[1] <= usize::MAX,
        ensures
            r == Err::<Self, _>(ArrayError::DTypeMismatch) <==> self.spec_dtype() != rhs.spec_dtype(),
            r.is_ok() ==> r.unwrap().spec_dtype() == self.spec_dtype(),
            match (*self, *rhs) {
                (CpuArray::F32Array(x), CpuArray::F32Array(y)) => product_of(x, y, zs, *ms, single(r)),
                (CpuArray::F64Array(x), CpuArray::F64Array(y)) => product_of(x, y, zd, *md, double(r)),
                _ => true,
            },
    {
        match (self, rhs) {
            (CpuArray::F32Array(a), CpuArray::F32Array(b)) => match a.matmul(b, zs, ms) {
                Ok(c) => Ok(CpuArray::F32Array(c)),
                Err(e) => Err(e),
            },
            (CpuArray::F64Array(a), CpuArray::F64Array(b)) => match a.matmul(b, zd, md) {
                Ok(c) => Ok(CpuArray::F64Array(c)),
                Err(e) => Err(e),
            },
            _ => Err(ArrayError::DTypeMismatch),
        }
    }

    /// Reduction along the axes `dims` (see `Dense::sum`), folding with `fs` or `fd`
    /// from `zs` or `zd`.
    pub fn sum<FS: Fn(S, S) -> S, FD: Fn(D, D) -> D>(&self, dims: &Vec<usize>, zs: S, fs: &FS, zd: D, fd: &FD) -> (r: Result<Self, ArrayError>)
        requires
            self.wf(),
            crate::dense::reduction_fits(self.dims(), axis_plan(dims@, self.dims().len() as nat)),
            forall|x: S, y: S| call_requires(*fs, (x, y)),
            forall|x: D, y: D| call_requires(*fd, (x, y)),
        ensures
            r.is_ok() ==> r.unwrap().spec_dtype() == self.spec_dtype(),
            match *self {
                CpuArray::F32Array(x) => sum_of(x, dims@, zs, *fs, single(r)),
                CpuArray::F64Array(x) => sum_of(x, dims@, zd, *fd, double(r)),
            },
    {
        match self {
            CpuArray::F32Array(a) => match a.sum(dims, zs, fs) {
                Ok(c) => Ok(CpuArray::F32Array(c)),
                Err(e) => Err(e),
            },
            CpuArray::F64Array(a) => match a.sum(dims, zd, fd) {
                Ok(c) => Ok(CpuArray::F64Array(c)),
                Err(e) => Err(e),
            },
        }
    }

    /// All axes reversed (see `Dense::transpose`).
    pub fn transpose(&self) -> (r: Self)
        requires
            self.wf(),
        ensures
            transposed(*self, r),
    {
        match self {
            CpuArray::F32Array(a) => CpuArray::F32Array(a.transpose()),
            CpuArray::F64Array(a) => CpuArray::F64Array(a.transpose()),
        }
    }

    /// Element at the multi-index `index`; `None` where it has the wrong length or
    /// some component is out of range.
    pub fn get(&self, index: &Vec<usize>) -> (r: Option<Element<S, D>>)
        requires
            self.wf(),
        ensures
            r.is_some() <==> index_in(self.dims(), index@),
            r.is_some() ==> r.unwrap() == self.element_at(offset(self.dims(), index@) as int),
    {
        match self {
            CpuArray::F32Array(a) => match a.get(index) {
                Some(v) => Some(Element::F32(v)),
                None => None,
            },
            CpuArray::F64Array(a) => match a.get(index) {
                Some(v) => Some(Element::F64(v)),
                None => None,
            },
        }
    }

    /// Overwrites this array with `other`. `DTypeMismatch` or `ShapeMismatch`,
    /// leaving it unchanged, where the dtypes or the shapes differ.
    pub fn copy_from(&mut self, other: &Self) -> (r: Result<(), ArrayError>)
        requires
            old(self).wf(),
            other.wf(),
        ensures
            r == Err::<(), _>(ArrayError::DTypeMismatch) <==> old(self).spec_dtype() != other.spec_dtype(),
            r == Err::<(), _>(ArrayError::ShapeMismatch) <==> old(self).spec_dtype() == other.spec_dtype() && old(self).dims() != other.dims(),
            r.is_ok() <==> old(self).spec_dtype() == other.spec_dtype() && old(self).dims() == other.dims(),
            r.is_err() ==> *final(self) == *old(self),
            r.is_ok() ==> final(self).spec_dtype() == other.spec_dtype() && final(self).dims() == other.dims()
                && final(self).elements() == other.elements(),
            final(self).wf(),
    {
        match (self, other) {
            (CpuArray::F32Array(a), CpuArray::F32Array(b)) => {
                let r = a.copy_from(b);
                proof {
                    assert(r.is_ok() ==> final(self).elements() =~= other.elements());
                }
                r
            },
            (CpuArray::F64Array(a), CpuArray::F64Array(b)) => {
                let r = a.copy_from(b);
                proof {
                    assert(r.is_ok() ==> final(self).elements() =~= other.elements());
                }
                r
            },
            _ => Err(ArrayError::DTypeMismatch),
        }
    }

    /// Elementwise combination with `fs` (single precision) or `fd` (double
    /// precision). `DTypeMismatch` where the dtypes differ, else `ShapeMismatch`
    /// where the shapes differ.
    fn zip<FS: Fn(S, S) -> S, FD: Fn(D, D) -> D>(&self, rhs: &Self, fs: FS, fd: FD) -> (r: Result<Self, ArrayError>)
        requires
            self.wf(),
            rhs.wf(),
            forall|x: S, y: S| call_requires(fs, (x, y)),
            forall|x: D, y: D| call_requires(fd, (x, y)),
        ensures
            zip_outcome(*self, *rhs, r, fs, fd),
    {
        match (self, rhs) {
            (CpuArray::F32Array(a), CpuArray::F32Array(b)) => match a.zip_with(b, fs) {
                Ok(c) => Ok(CpuArray::F32Array(c)),
                Err(e) => Err(e),
            },
            (CpuArray::F64Array(a), CpuArray::F64Array(b)) => match a.zip_with(b, fd) {
                Ok(c) => Ok(CpuArray::F64Array(c)),
                Err(e) => Err(e),
            },
            _ => Err(ArrayError::DTypeMismatch),
        }
    }
}

/// What an elementwise operation on `a` and `b` returns: `DTypeMismatch` where the
/// dtypes differ, else `ShapeMismatch` where the shapes differ, else `a` and `b`
/// combined elementwise.
pub open spec fn zip_outcome<S: Copy, D: Copy, FS: Fn(S, S) -> S, FD: Fn(D, D) -> D>(
    a: CpuArray<S, D>,
    b: CpuArray<S, D>,
    r: Result<CpuArray<S, D>, ArrayError>,
    fs: FS,
    fd: FD,
) -> bool {
    &&& (r == Err::<CpuArray<S, D>, _>(ArrayError::DTypeMismatch) <==> a.spec_dtype() != b.spec_dtype())
    &&& (r == Err::<CpuArray<S, D>, _>(ArrayError::ShapeMismatch) <==> a.spec_dtype() == b.spec_dtype() && a.dims() != b.dims())
    &&& (r.is_ok() <==> a.spec_dtype() == b.spec_dtype() && a.dims() == b.dims())
    &&& (r.is_ok() ==> elementwise(a, b, r.unwrap(), fs, fd))
}

/// `r` combines `a` and `b` elementwise, with `fs` or `fd` by dtype.
pub open spec fn elementwise<S: Copy, D: Copy, FS: Fn(S, S) -> S, FD: Fn(D, D) -> D>(
    a: CpuArray<S, D>,
    b: CpuArray<S, D>,
    r: CpuArray<S, D>,
    fs: FS,
    fd: FD,
) -> bool {
    match (a, b, r) {
        (CpuArray::F32Array(x), CpuArray::F32Array(y), CpuArray::F32Array(z)) => zipped(x, y, z, fs),
        (CpuArray::F64Array(x), CpuArray::F64Array(y), CpuArray::F64Array(z)) => zipped(x, y, z, fd),
        _ => false,
    }
}

/// Every element of `a` is `vs` (single precision) or `vd` (double precision).
pub open spec fn uniform<S: Copy, D: Copy>(a: CpuArray<S, D>, vs: S, vd: D) -> bool {
    forall|i: int| 0 <= i < a.len() ==> #[trigger] a.element_at(i) == match a {
        CpuArray::F32Array(_) => Element::<S, D>::F32(vs),
        CpuArray::F64Array(_) => Element::<S, D>::F64(vd),
    }
}

/// `r` is `a` with all axes reversed: the extents come in reverse order, and the
/// element at each position `j` of `r` is the element of `a` whose multi-index is `j`
/// read with the first axis varying fastest.
pub open spec fn transposed<S: Copy, D: Copy>(a: CpuArray<S, D>, r: CpuArray<S, D>) -> bool {
    &&& r.wf()
    &&& r.spec_dtype() == a.spec_dtype()
    &&& r.dims() == reversed(a.dims())
    &&& r.len() == a.len()
    &&& forall|j: int| 0 <= j < r.len() ==> #[trigger] r.element_at(j) == a.element_at(
        offset(a.dims(), crate::dense::col_major_index(a.dims(), j as nat)) as int)
}

/// `r` applies `fs` or `fd`, by dtype, to each element of `a`.
pub open spec fn pointwise<S: Copy, D: Copy, FS: Fn(S) -> S, FD: Fn(D) -> D>(a: CpuArray<S, D>, r: CpuArray<S, D>, fs: FS, fd: FD) -> bool {
    match (a, r) {
        (CpuArray::F32Array(x), CpuArray::F32Array(z)) => mapped(x, z, fs),
        (CpuArray::F64Array(x), CpuArray::F64Array(z)) => mapped(x, z, fd),
        _ => false,
    }
}

/// The single-precision array inside a result, if it holds one.
pub open spec fn single<S, D>(r: Result<CpuArray<S, D>, ArrayError>) -> Result<Dense<S>, ArrayError> {
    match r {
        Ok(CpuArray::F32Array(x)) => Ok(x),
        Ok(CpuArray::F64Array(_)) => Err(ArrayError::DTypeMismatch),
        Err(e) => Err(e),
    }
}

/// The double-precision array inside a result, if it holds one.
pub open spec fn double<S, D>(r: Result<CpuArray<S, D>, ArrayError>) -> Result<Dense<D>, ArrayError> {
    match r {
        Ok(CpuArray::F64Array(x)) => Ok(x),
        Ok(CpuArray::F32Array(_)) => Err(ArrayError::DTypeMismatch),
        Err(e) => Err(e),
    }
}

} // verus!
