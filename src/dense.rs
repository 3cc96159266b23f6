use vstd::prelude::*;
use crate::error::ArrayError;
use crate::shape::{
    axis_plan, index_in, reversed, lemma_size_positive, lemma_size_split, offset, reduction_plan, shape_size, size_of,
    without_axis,
};

verus! {

/// The `k` elements of `v` at `start`, `start + step`, `start + 2 * step`, ...
pub open spec fn strided<T>(v: Seq<T>, start: int, step: int, k: int) -> Seq<T> {
    Seq::new(k as nat, |t: int| v[start + t * step])
}

/// The multi-index in an array of shape `s` whose position is `j` when the first
/// axis varies fastest (column-major order).
pub open spec fn col_major_index(s: Seq<usize>, j: nat) -> Seq<usize>
    decreases s.len(),
{
    if s.len() == 0 {
        seq![]
    } else {
        seq![(j % (s[0] as nat)) as usize] + col_major_index(s.drop_first(), j / (s[0] as nat))
    }
}

/// `acc` lists the partial results of folding `f` from `init` over `s`, left to
/// right: `acc[0]` is `init` and each next one is `f` of the previous one and the
/// next element.
pub open spec fn fold_trace<T, F: Fn(T, T) -> T>(f: F, init: T, s: Seq<T>, acc: Seq<T>) -> bool {
    &&& acc.len() == s.len() + 1
    &&& acc[0] == init
    &&& forall|i: int| 0 <= i < s.len() ==> call_ensures(f, (acc[i], s[i]), #[trigger] acc[i + 1])
}

/// `r` is what folding `f` from `init` over `s`, left to right, can give.
pub open spec fn folds<T, F: Fn(T, T) -> T>(f: F, init: T, s: Seq<T>, r: T) -> bool {
    exists|acc: Seq<T>| #[trigger] fold_trace(f, init, s, acc) && acc.last() == r
}

/// `acc` lists the partial results of accumulating `f(acc, x, y)` from `init` over
/// the pairs of `xs` and `ys`, left to right.
pub open spec fn pair_trace<T, F: Fn(T, T, T) -> T>(f: F, init: T, xs: Seq<T>, ys: Seq<T>, acc: Seq<T>) -> bool {
    &&& xs.len() == ys.len()
    &&& acc.len() == xs.len() + 1
    &&& acc[0] == init
    &&& forall|i: int| 0 <= i < xs.len() ==> call_ensures(f, (acc[i], xs[i], ys[i]), #[trigger] acc[i + 1])
}

/// `r` is what accumulating `f(acc, x, y)` from `init` over the pairs of `xs` and
/// `ys`, left to right, can give.
pub open spec fn folds_pairs<T, F: Fn(T, T, T) -> T>(f: F, init: T, xs: Seq<T>, ys: Seq<T>, r: T) -> bool {
    exists|acc: Seq<T>| #[trigger] pair_trace(f, init, xs, ys, acc) && acc.last() == r
}

/// `out` is the reduction of the row-major data `d` of shape `s` along `axis`: the
/// element at each position of the remaining axes folds `f` from `zero` over the
/// `s[axis]` elements that differ from it only in that axis.
pub open spec fn axis_reduced<T, F: Fn(T, T) -> T>(f: F, zero: T, s: Seq<usize>, d: Seq<T>, axis: int, out: Seq<T>) -> bool {
    let inner = shape_size(s.skip(axis + 1)) as int;
    let n = s[axis] as int;
    &&& out.len() == shape_size(without_axis(s, axis))
    &&& forall|p: int| 0 <= p < out.len() ==> folds(f, zero, strided(d, (p / inner) * (n * inner) + p % inner, inner, n), #[trigger] out[p])
}

/// `shapes` and `datas` list the arrays met while reducing along the axes of
/// `plan` one after another, from the first array to the last.
pub open spec fn reduction_trace<T, F: Fn(T, T) -> T>(
    f: F,
    zero: T,
    plan: Seq<usize>,
    shapes: Seq<Seq<usize>>,
    datas: Seq<Seq<T>>,
) -> bool {
    &&& shapes.len() == plan.len() + 1
    &&& datas.len() == plan.len() + 1
    &&& forall|t: int| 0 <= t < plan.len() ==> #[trigger] reduction_step(f, zero, plan, shapes, datas, t)
}

/// Step `t` of a reduction trace: the next array reduces the current one along
/// `plan[t]`.
pub open spec fn reduction_step<T, F: Fn(T, T) -> T>(
    f: F,
    zero: T,
    plan: Seq<usize>,
    shapes: Seq<Seq<usize>>,
    datas: Seq<Seq<T>>,
    t: int,
) -> bool {
    &&& plan[t] < shapes[t].len()
    &&& shapes[t + 1] == without_axis(shapes[t], plan[t] as int)
    &&& axis_reduced(f, zero, shapes[t], datas[t], plan[t] as int, datas[t + 1])
}

/// Reducing the data `d` of shape `s` along the axes of `plan`, one after another,
/// can end in the data `rd` of shape `rs`.
pub open spec fn reduces<T, F: Fn(T, T) -> T>(f: F, zero: T, s: Seq<usize>, d: Seq<T>, plan: Seq<usize>, rs: Seq<usize>, rd: Seq<T>) -> bool {
    exists|shapes: Seq<Seq<usize>>, datas: Seq<Seq<T>>|
        #[trigger] reduction_trace(f, zero, plan, shapes, datas) && shapes[0] == s && datas[0] == d
            && shapes.last() == rs && datas.last() == rd
}

/// Every array met while reducing an array of shape `s` along the axes of `plan`
/// has a size that fits in `usize`.
pub open spec fn reduction_fits(s: Seq<usize>, plan: Seq<usize>) -> bool
    decreases plan.len(),
{
    if plan.len() == 0 {
        true
    } else {
        &&& plan[0] < s.len()
        &&& shape_size(without_axis(s, plan[0] as int)) <= usize::MAX
        &&& reduction_fits(without_axis(s, plan[0] as int), plan.drop_first())
    }
}

/// Rank of a reduction's result: the axes left, and at least one.
pub open spec fn reduced_rank(rank: nat, removed: nat) -> nat {
    if rank > removed {
        (rank - removed) as nat
    } else {
        1
    }
}

proof fn lemma_without_axis_size(s: Seq<usize>, axis: int)
    requires
        0 <= axis < s.len(),
    ensures
        shape_size(without_axis(s, axis)) == shape_size(s.take(axis)) * shape_size(s.skip(axis + 1)),
        shape_size(s) == shape_size(s.take(axis)) * (s[axis] * shape_size(s.skip(axis + 1))),
{
    let w = without_axis(s, axis);
    lemma_size_split(w, axis);
    assert(w.take(axis) =~= s.take(axis));
    assert(w.skip(axis) =~= s.skip(axis + 1));
    lemma_size_split(s, axis);
    assert(s.skip(axis).drop_first() =~= s.skip(axis + 1));
    assert(s.skip(axis)[0] == s[axis]);
}

proof fn lemma_offset_push(s: Seq<usize>, idx: Seq<usize>, d: usize, i: usize)
    requires
        idx.len() == s.len(),
    ensures
        offset(s.push(d), idx.push(i)) == offset(s, idx) * d + i,
    decreases s.len(),
{
    if s.len() == 0 {
        assert(s.push(d).drop_first() =~= Seq::<usize>::empty());
        assert(idx.push(i).drop_first() =~= Seq::<usize>::empty());
        assert(shape_size(Seq::<usize>::empty()) == 1);
        assert(offset(Seq::<usize>::empty(), Seq::<usize>::empty()) == 0);
        assert(s.push(d)[0] == d && idx.push(i)[0] == i);
        assert(offset(s, idx) == 0);
        assert(offset(s.push(d), idx.push(i)) == i as nat * 1 + 0);
        assert(0 * d == 0);
    } else {
        let s1 = s.drop_first();
        let x1 = idx.drop_first();
        assert(s.push(d).drop_first() =~= s1.push(d));
        assert(idx.push(i).drop_first() =~= x1.push(i));
        lemma_offset_push(s1, x1, d, i);
        assert(s.push(d)[0] == s[0] && idx.push(i)[0] == idx[0]);
        lemma_size_split(s1.push(d), s1.len() as int);
        assert(s1.push(d).take(s1.len() as int) =~= s1);
        assert(s1.push(d).skip(s1.len() as int) =~= seq![d]);
        crate::shape::lemma_size_one(d);
        let a = idx[0] as nat;
        let z = shape_size(s1);
        let o = offset(s1, x1);
        assert(shape_size(s1.push(d)) == z * d);
        assert(offset(s.push(d), idx.push(i)) == a * shape_size(s1.push(d)) + offset(s1.push(d), x1.push(i)));
        assert(offset(s, idx) == a * z + o);
        assert(a * (z * d) + (o * d + i) == (a * z + o) * d + i) by (nonlinear_arith);
    }
}

/// The row-major position of a valid multi-index is below the size of the shape.
pub proof fn lemma_offset_bound(s: Seq<usize>, idx: Seq<usize>)
    requires
        index_in(s, idx),
    ensures
        offset(s, idx) < shape_size(s),
    decreases s.len(),
{
    if s.len() > 0 {
        let s1 = s.drop_first();
        let x1 = idx.drop_first();
        assert(idx[0] < s[0]);
        assert forall|k: int| 0 <= k < s1.len() implies #[trigger] x1[k] < s1[k] by {
            assert(idx[k + 1] < s[k + 1]);
        }
        lemma_offset_bound(s1, x1);
        let a = idx[0] as nat;
        let d = s[0] as nat;
        let z = shape_size(s1);
        let o = offset(s1, x1);
        assert(a * z + o < d * z) by (nonlinear_arith)
            requires a < d, o < z;
    }
}

/// A dense array in row-major order.
pub struct Dense<T> {
    shape: Vec<usize>,
    data: Vec<T>,
}

impl<T: Copy> Dense<T> {
    /// The extents of the array.
    pub closed spec fn dims(&self) -> Seq<usize> {
        self.shape@
    }

    /// The elements of the array in row-major order.
    pub closed spec fn elems(&self) -> Seq<T> {
        self.data@
    }

    /// The buffer holds one element per position of the shape.
    pub open spec fn wf(&self) -> bool {
        self.elems().len() == shape_size(self.dims())
    }

    /// Element at row-major position `i`.
    pub open spec fn at(&self, i: int) -> T {
        self.elems()[i]
    }

    /// An array of the given shape over `data`; `ShapeMismatch` where the buffer
    /// length is not the number of positions of the shape.
    pub fn from_vec(shape: Vec<usize>, data: Vec<T>) -> (r: Result<Self, ArrayError>)
        ensures
            r.is_ok() <==> data@.len() == shape_size(shape@),
            r.is_err() ==> r == Err::<Self, _>(ArrayError::ShapeMismatch),
            r.is_ok() ==> r.unwrap().wf() && r.unwrap().dims() == shape@ && r.unwrap().elems() == data@,
    {
        match size_of(&shape) {
            Some(n) => {
                if n == data.len() {
                    assert(data@.len() == shape_size(shape@));
                    Ok(Dense { shape, data })
                } else {
                    Err(ArrayError::ShapeMismatch)
                }
            },
            None => {
                // The shape has more positions than any buffer can hold.
                let _held = data.len();
                Err(ArrayError::ShapeMismatch)
            },
        }
    }

    /// An array of the given shape with every element `v`.
    pub fn full(shape: Vec<usize>, v: T) -> (r: Self)
        requires
            shape_size(shape@) <= usize::MAX,
        ensures
            r.wf(),
            r.dims() == shape@,
            r.elems() == Seq::new(shape_size(shape@), |i: int| v),
    {
        let n = match size_of(&shape) {
            Some(n) => n,
            None => 0,
        };
        let mut data: Vec<T> = Vec::with_capacity(n);
        let mut i: usize = 0;
        while i < n
            invariant
                i <= n,
                n == shape_size(shape@),
                data@ == Seq::new(i as nat, |j: int| v),
            decreases n - i,
        {
            data.push(v);
            i = i + 1;
            assert(data@ =~= Seq::new(i as nat, |j: int| v));
        }
        assert(data@ =~= Seq::new(shape_size(shape@), |j: int| v));
        Dense { shape, data }
    }

    /// A copy of the array's extents.
    pub fn shape(&self) -> (r: Vec<usize>)
        ensures
            r@ == self.dims(),
    {
        self.shape.clone()
    }

    /// Number of axes.
    pub fn rank(&self) -> (r: usize)
        ensures
            r == self.dims().len(),
    {
        self.shape.len()
    }

    /// The elements in row-major order.
    pub fn to_vec(&self) -> (r: Vec<T>)
        ensures
            r@ == self.elems(),
    {
        let mut out: Vec<T> = Vec::with_capacity(self.data.len());
        let mut i: usize = 0;
        while i < self.data.len()
            invariant
                i <= self.data@.len(),
                out@ == self.data@.take(i as int),
            decreases self.data@.len() - i,
        {
            out.push(self.data[i]);
            i = i + 1;
            assert(out@ =~= self.data@.take(i as int));
        }
        assert(self.data@.take(i as int) =~= self.data@);
        out
    }

    /// Element at the multi-index `index`; `None` where it has the wrong length or
    /// some component is out of range.
    pub fn get(&self, index: &Vec<usize>) -> (r: Option<T>)
        requires
            self.wf(),
        ensures
            r.is_some() <==> index_in(self.dims(), index@),
            r.is_some() ==> r.unwrap() == self.at(offset(self.dims(), index@) as int),
    {
        let n = self.shape.len();
        if index.len() != n {
            return None;
        }
        let mut k: usize = 0;
        while k < n
            invariant
                k <= n,
                n == self.shape@.len(),
                n == index@.len(),
                forall|j: int| 0 <= j < k ==> #[trigger] index@[j] < self.shape@[j],
            decreases n - k,
        {
            if index[k] >= self.shape[k] {
                return None;
            }
            k = k + 1;
        }
        let total = self.data.len();
        let off = flat_offset(&self.shape, index, total);
        Some(self.data[off])
    }

    /// Overwrites this array with `other`; `ShapeMismatch`, leaving it unchanged,
    /// where the shapes differ.
    pub fn copy_from(&mut self, other: &Self) -> (r: Result<(), ArrayError>)
        requires
            old(self).wf(),
            other.wf(),
        ensures
            r.is_ok() <==> old(self).dims() == other.dims(),
            r.is_err() ==> r == Err::<(), _>(ArrayError::ShapeMismatch) && *final(self) == *old(self),
            r.is_ok() ==> final(self).dims() == other.dims() && final(self).elems() == other.elems(),
            final(self).wf(),
    {
        if !same_dims(&self.shape, &other.shape) {
            return Err(ArrayError::ShapeMismatch);
        }
        let mut i: usize = 0;
        let n = self.data.len();
        while i < n
            invariant
                i <= n,
                n == self.data@.len(),
                n == other.data@.len(),
                self.shape@ == other.shape@,
                forall|j: int| 0 <= j < i ==> self.data@[j] == other.data@[j],
            decreases n - i,
        {
            self.data.set(i, other.data[i]);
            i = i + 1;
        }
        assert(self.data@ =~= other.data@);
        Ok(())
    }

    /// Applies `f` to each pair of corresponding elements; `ShapeMismatch` where the
    /// shapes differ.
    pub fn zip_with<F: Fn(T, T) -> T>(&self, rhs: &Self, f: F) -> (r: Result<Self, ArrayError>)
        requires
            self.wf(),
            rhs.wf(),
            forall|x: T, y: T| call_requires(f, (x, y)),
        ensures
            r.is_ok() <==> self.dims() == rhs.dims(),
            r.is_err() ==> r == Err::<Self, _>(ArrayError::ShapeMismatch),
            r.is_ok() ==> {
                let o = r.unwrap();
                &&& o.wf()
                &&& o.dims() == self.dims()
                &&& o.elems().len() == self.elems().len()
                &&& forall|i: int| 0 <= i < o.elems().len() ==> call_ensures(f, (self.at(i), rhs.at(i)), #[trigger] o.at(i))
            },
    {
        if !same_dims(&self.shape, &rhs.shape) {
            return Err(ArrayError::ShapeMismatch);
        }
        let n = self.data.len();
        let mut data: Vec<T> = Vec::with_capacity(n);
        let mut i: usize = 0;
        while i < n
            invariant
                i <= n,
                n == self.data@.len(),
                n == rhs.data@.len(),
                data@.len() == i,
                forall|x: T, y: T| call_requires(f, (x, y)),
                forall|j: int| 0 <= j < i ==> call_ensures(f, (self.data@[j], rhs.data@[j]), #[trigger] data@[j]),
            decreases n - i,
        {
            let v = f(self.data[i], rhs.data[i]);
            data.push(v);
            i = i + 1;
        }
        Ok(Dense { shape: self.shape.clone(), data })
    }

    /// Applies `f` to each element.
    pub fn map<F: Fn(T) -> T>(&self, f: F) -> (r: Self)
        requires
            self.wf(),
            forall|x: T| call_requires(f, (x,)),
        ensures
            r.wf(),
            r.dims() == self.dims(),
            r.elems().len() == self.elems().len(),
            forall|i: int| 0 <= i < r.elems().len() ==> call_ensures(f, (self.at(i),), #[trigger] r.at(i)),
    {
        let n = self.data.len();
        let mut data: Vec<T> = Vec::with_capacity(n);
        let mut i: usize = 0;
        while i < n
            invariant
                i <= n,
                n == self.data@.len(),
                data@.len() == i,
                forall|x: T| call_requires(f, (x,)),
                forall|j: int| 0 <= j < i ==> call_ensures(f, (self.data@[j],), #[trigger] data@[j]),
            decreases n - i,
        {
            let v = f(self.data[i]);
            data.push(v);
            i = i + 1;
        }
        Dense { shape: self.shape.clone(), data }
    }

    /// The fold of `add` from `zero` over all elements, as an array of shape `[1]`.
    pub fn sum_all<F: Fn(T, T) -> T>(&self, zero: T, combine: &F) -> (r: Self)
        requires
            self.wf(),
            forall|x: T, y: T| call_requires(*combine, (x, y)),
        ensures
            r.wf(),
            r.dims() == seq![1usize],
            r.elems().len() == 1,
            folds(*combine, zero, self.elems(), r.at(0)),
    {
        let v = fold_strided(&self.data, 0, 1, self.data.len(), zero, combine);
        let mut data: Vec<T> = Vec::new();
        data.push(v);
        let mut shape: Vec<usize> = Vec::new();
        shape.push(1);
        proof {
            crate::shape::lemma_size_one(1);
            assert(strided(self.data@, 0, 1, self.data@.len() as int) =~= self.data@);
        }
        Dense { shape, data }
    }
    /// Reduction along `axis`: folds `combine` from `zero` over that axis, which the
    /// result no longer has.
    pub fn sum_axis<F: Fn(T, T) -> T>(&self, axis: usize, zero: T, combine: &F) -> (r: Self)
        requires
            self.wf(),
            axis < self.dims().len(),
            shape_size(without_axis(self.dims(), axis as int)) <= usize::MAX,
            forall|x: T, y: T| call_requires(*combine, (x, y)),
        ensures
            r.wf(),
            r.dims() == without_axis(self.dims(), axis as int),
            axis_reduced(*combine, zero, self.dims(), self.elems(), axis as int, r.elems()),
    {
        let ghost s = self.shape@;
        let rank = self.shape.len();
        let mut rshape: Vec<usize> = Vec::new();
        let mut suffix: Vec<usize> = Vec::new();
        let mut k: usize = 0;
        while k < rank
            invariant
                k <= rank,
                rank == s.len(),
                s == self.shape@,
                axis < rank,
                rshape@ == (if k <= axis { s.take(k as int) } else { s.take(axis as int) + s.subrange(axis + 1, k as int) }),
                suffix@ == (if k <= axis + 1 { Seq::<usize>::empty() } else { s.subrange(axis + 1, k as int) }),
            decreases rank - k,
        {
            if k != axis {
                rshape.push(self.shape[k]);
            }
            if k > axis {
                suffix.push(self.shape[k]);
            }
            k = k + 1;
            proof {
                if k <= axis {
                    assert(rshape@ =~= s.take(k as int));
                } else if k == axis + 1 {
                    assert(rshape@ =~= s.take(axis as int) + s.subrange(axis + 1, k as int));
                } else {
                    assert(rshape@ =~= s.take(axis as int) + s.subrange(axis + 1, k as int));
                    assert(suffix@ =~= s.subrange(axis + 1, k as int));
                }
            }
        }
        proof {
            assert(s.subrange(axis + 1, rank as int) =~= s.skip(axis + 1));
            assert(rshape@ =~= without_axis(s, axis as int));
            assert(suffix@ =~= s.skip(axis + 1));
            lemma_without_axis_size(s, axis as int);
        }
        let total = match size_of(&rshape) {
            Some(t) => t,
            None => 0,
        };
        let ghost outer = shape_size(s.take(axis as int));
        let inner = match size_of(&suffix) {
            Some(t) => t,
            None => {
                proof {
                    let x = shape_size(s.skip(axis + 1));
                    assert(outer == 0) by (nonlinear_arith)
                        requires outer * x <= usize::MAX, x > usize::MAX;
                    assert(outer * x == 0) by (nonlinear_arith)
                        requires outer == 0;
                    assert(total == 0);
                }
                return Dense { shape: rshape, data: Vec::new() };
            },
        };
        let n = self.shape[axis];
        let la = self.data.len();
        let mut data: Vec<T> = Vec::new();
        let mut p: usize = 0;
        proof {
            assert(la == outer * (n * inner));
            assert(n == s[axis as int]);
            if total > 0 {
                assert(inner > 0 && outer > 0) by (nonlinear_arith)
                    requires total == outer * inner, total > 0;
                assert(n * inner <= outer * (n * inner)) by (nonlinear_arith)
                    requires outer > 0;
            }
        }
        while p < total
            invariant
                p <= total,
                total == outer * inner,
                la == self.data@.len(),
                la == outer * (n * inner),
                total > 0 ==> inner > 0 && n * inner <= la,
                n == s[axis as int],
                inner == shape_size(s.skip(axis + 1)),
                s == self.shape@,
                data@.len() == p,
                forall|x: T, y: T| call_requires(*combine, (x, y)),
                forall|q: int| 0 <= q < p ==> folds(*combine, zero,
                    strided(self.data@, (q / inner as int) * (n * inner) + q % inner as int, inner as int, n as int), #[trigger] data@[q]),
            decreases total - p,
        {
            let o = p / inner;
            let i = p % inner;
            proof {
                vstd::arithmetic::div_mod::lemma_fundamental_div_mod(p as int, inner as int);
                assert(o < outer) by (nonlinear_arith)
                    requires p < outer * inner, p == inner * o + i, 0 <= i, inner > 0;
                if n > 0 {
                    assert(o * (n * inner) + i + (n - 1) * inner < outer * (n * inner)) by (nonlinear_arith)
                        requires o < outer, i < inner, n > 0;
                    assert(o * (n * inner) + i < outer * (n * inner)) by (nonlinear_arith)
                        requires o < outer, i < inner, n > 0;
                } else {
                    assert(o * (n * inner) == 0) by (nonlinear_arith)
                        requires n == 0;
                }
                assert(o * (n * inner) <= la) by (nonlinear_arith)
                    requires o < outer, la == outer * (n * inner);
            }
            let ni = n * inner;
            let start = o * ni + i;
            let v = fold_strided(&self.data, start, inner, n, zero, combine);
            data.push(v);
            p = p + 1;
        }
        Dense { shape: rshape, data }
    }

    /// Reduction along the axes `dims`, taken as a set: along each requested axis
    /// in ascending order, each one lowered by the number reduced before it. No
    /// axes means the full reduction in shape `[1]`; a reduction that leaves no axis
    /// has shape `[1]` too. `AxisOutOfRange` where some requested axis is not
    /// below the rank.
    pub fn sum<F: Fn(T, T) -> T>(&self, dims: &Vec<usize>, zero: T, combine: &F) -> (r: Result<Self, ArrayError>)
        requires
            self.wf(),
            reduction_fits(self.dims(), axis_plan(dims@, self.dims().len() as nat)),
            forall|x: T, y: T| call_requires(*combine, (x, y)),
        ensures
            sum_of(*self, dims@, zero, *combine, r),
    {
        let plan = match reduction_plan(dims, self.shape.len()) {
            Ok(p) => p,
            Err(e) => {
                return Err(e);
            },
        };
        if dims.len() == 0 {
            let r = self.sum_all(zero, combine);
            return Ok(r);
        }
        proof {
            lemma_plan_len(dims@, self.dims().len() as nat);
        }
        let rank = self.shape.len();
        let mut cur = self.clone_dense();
        let mut t: usize = 0;
        let ghost shapes: Seq<Seq<usize>> = seq![self.dims()];
        let ghost datas: Seq<Seq<T>> = seq![self.elems()];
        proof {
            assert(plan@.skip(0) =~= plan@);
            assert(plan@.take(0) =~= Seq::<usize>::empty());
        }
        while t < plan.len()
            invariant
                t <= plan@.len(),
                plan@.len() <= rank,
                rank == self.dims().len(),
                cur.wf(),
                cur.dims().len() == rank - t,
                reduction_fits(cur.dims(), plan@.skip(t as int)),
                forall|x: T, y: T| call_requires(*combine, (x, y)),
                reduction_trace(*combine, zero, plan@.take(t as int), shapes, datas),
                shapes[0] == self.dims(),
                datas[0] == self.elems(),
                shapes.last() == cur.dims(),
                datas.last() == cur.elems(),
            decreases plan@.len() - t,
        {
            let ax = plan[t];
            proof {
                assert(plan@.skip(t as int)[0] == ax);
                assert(plan@.skip(t as int).drop_first() =~= plan@.skip(t + 1));
            }
            let next = cur.sum_axis(ax, zero, combine);
            proof {
                let ps = shapes;
                let pd = datas;
                shapes = ps.push(next.dims());
                datas = pd.push(next.elems());
                let pl = plan@.take(t + 1);
                assert(pl.take(t as int) =~= plan@.take(t as int));
                assert(ps.len() == t + 1);
                assert(pd.len() == t + 1);
                assert forall|q: int| 0 <= q < pl.len() implies #[trigger] reduction_step(*combine, zero, pl, shapes, datas, q) by {
                    if q < t {
                        assert(reduction_step(*combine, zero, plan@.take(t as int), ps, pd, q));
                        assert(plan@.take(t as int)[q] == pl[q]);
                        assert(shapes[q] == ps[q] && datas[q] == pd[q] && datas[q + 1] == pd[q + 1]);
                        assert(shapes[q + 1] == ps[q + 1]);
                    } else {
                        assert(q == t);
                        assert(shapes[q] == cur.dims() && datas[q] == cur.elems());
                        assert(shapes[q + 1] == next.dims() && datas[q + 1] == next.elems());
                    }
                }
                assert(reduction_trace(*combine, zero, pl, shapes, datas));
            }
            cur = next;
            t = t + 1;
        }
        proof {
            assert(plan@.take(plan@.len() as int) =~= plan@);
        }
        if cur.shape.len() == 0 {
            let mut shape: Vec<usize> = Vec::new();
            shape.push(1);
            proof {
                crate::shape::lemma_size_one(1);
                assert(cur.shape@ =~= Seq::<usize>::empty());
            }
            return Ok(Dense { shape, data: cur.data });
        }
        Ok(cur)
    }

    /// A copy of the array.
    pub fn clone_dense(&self) -> (r: Self)
        ensures
            r.dims() == self.dims(),
            r.elems() == self.elems(),
    {
        Dense { shape: self.shape(), data: self.to_vec() }
    }

    /// All axes reversed: the extents come in reverse order, and the element at
    /// each output position `j` is the input element whose multi-index is `j` read
    /// with the first axis varying fastest.
    pub fn transpose(&self) -> (r: Self)
        requires
            self.wf(),
        ensures
            r.wf(),
            r.dims() == reversed(self.dims()),
            r.elems().len() == self.elems().len(),
            forall|j: int| 0 <= j < r.elems().len() ==> #[trigger] r.at(j) == self.at(
                offset(self.dims(), col_major_index(self.dims(), j as nat)) as int),
    {
        let ghost s = self.shape@;
        let n = self.shape.len();
        let total = self.data.len();
        let mut rshape: Vec<usize> = Vec::new();
        let mut k: usize = n;
        while k > 0
            invariant
                k <= n,
                n == s.len(),
                s == self.shape@,
                rshape@ == reversed(s).take((n - k) as int),
            decreases k,
        {
            rshape.push(self.shape[k - 1]);
            k = k - 1;
            assert(rshape@ =~= reversed(s).take((n - k) as int));
        }
        assert(rshape@ =~= reversed(s));
        proof {
            lemma_size_reversed(s);
        }
        let mut data: Vec<T> = Vec::new();
        let mut j: usize = 0;
        while j < total
            invariant
                j <= total,
                total == self.data@.len(),
                total == shape_size(s),
                s == self.shape@,
                n == s.len(),
                data@.len() == j,
                forall|q: int| 0 <= q < j ==> #[trigger] data@[q] == self.data@[
                    offset(s, col_major_index(s, q as nat)) as int],
            decreases total - j,
        {
            proof {
                assert forall|q: int| 0 <= q < n implies #[trigger] s[q] > 0 by {
                    if s[q] == 0 {
                        crate::shape::lemma_size_zero(s, q);
                    }
                }
                assert(s.skip(0) =~= s);
            }
            let mut idx: Vec<usize> = Vec::new();
            let mut rem: usize = j;
            let mut k: usize = 0;
            while k < n
                invariant
                    k <= n,
                    n == s.len(),
                    s == self.shape@,
                    forall|q: int| 0 <= q < n ==> #[trigger] s[q] > 0,
                    idx@.len() == k,
                    forall|q: int| 0 <= q < k ==> #[trigger] idx@[q] < s[q],
                    col_major_index(s, j as nat) == idx@ + col_major_index(s.skip(k as int), rem as nat),
                decreases n - k,
            {
                let d = self.shape[k];
                proof {
                    let t = s.skip(k as int);
                    assert(t[0] == d);
                    assert(t.drop_first() =~= s.skip(k + 1));
                }
                let c = rem % d;
                idx.push(c);
                rem = rem / d;
                k = k + 1;
                proof {
                    let prev = idx@.drop_last();
                    assert(prev + (seq![c] + col_major_index(s.skip(k as int), rem as nat)) =~= idx@ + col_major_index(s.skip(k as int), rem as nat));
                }
            }
            proof {
                assert(s.skip(n as int) =~= Seq::<usize>::empty());
                assert(idx@ + Seq::<usize>::empty() =~= idx@);
            }
            let off = flat_offset(&self.shape, &idx, total);
            data.push(self.data[off]);
            j = j + 1;
        }
        Dense { shape: rshape, data }
    }

    /// Matrix product, accumulating `mac(acc, x, y)` from `zero` over each pair of
    /// a row of `self` and a column of `rhs`. Two rank-1 operands of equal length
    /// give their inner product in shape `[1]`; an `[m, k]` and a `[k, n]` operand
    /// give shape `[m, n]`. `UnsupportedShape` unless both ranks are 1 or both 2;
    /// `DimMismatch` where the inner extents differ.
    pub fn matmul<F: Fn(T, T, T) -> T>(&self, rhs: &Self, zero: T, mac: &F) -> (r: Result<Self, ArrayError>)
        requires
            self.wf(),
            rhs.wf(),
            forall|a: T, x: T, y: T| call_requires(*mac, (a, x, y)),
            self.dims().len() == 2 && rhs.dims().len() == 2 ==> self.dims()[0] * rhs.dims()[1] <= usize::MAX,
        ensures
            product_of(*self, *rhs, zero, *mac, r),
    {
        let ra = self.shape.len();
        if ra != rhs.shape.len() || (ra != 1 && ra != 2) {
            return Err(ArrayError::UnsupportedShape);
        }
        if ra == 1 {
            if self.shape[0] != rhs.shape[0] {
                return Err(ArrayError::DimMismatch);
            }
            proof {
                crate::shape::lemma_size_one(self.shape@[0]);
                crate::shape::lemma_size_one(rhs.shape@[0]);
                assert(self.shape@ =~= seq![self.shape@[0]]);
                assert(rhs.shape@ =~= seq![rhs.shape@[0]]);
            }
            let k = self.data.len();
            let v = dot_strided(&self.data, 0, 1, &rhs.data, 0, 1, k, zero, mac);
            proof {
                assert(strided(self.data@, 0, 1, k as int) =~= self.data@);
                assert(strided(rhs.data@, 0, 1, k as int) =~= rhs.data@);
                crate::shape::lemma_size_one(1);
            }
            let mut data: Vec<T> = Vec::new();
            data.push(v);
            let mut shape: Vec<usize> = Vec::new();
            shape.push(1);
            return Ok(Dense { shape, data });
        }
        let m = self.shape[0];
        let k = self.shape[1];
        if rhs.shape[0] != k {
            return Err(ArrayError::DimMismatch);
        }
        let n = rhs.shape[1];
        proof {
            assert(self.shape@ =~= seq![m, k]);
            assert(rhs.shape@ =~= seq![k, n]);
            crate::shape::lemma_size_two(m, k);
            crate::shape::lemma_size_two(k, n);
            crate::shape::lemma_size_two(m, n);
        }
        let la = self.data.len();
        let mut data: Vec<T> = Vec::new();
        let mut i: usize = 0;
        while i < m
            invariant
                i <= m,
                m * n <= usize::MAX,
                m * k == la,
                self.data@.len() == m * k,
                rhs.data@.len() == k * n,
                data@.len() == i * n,
                forall|a: T, x: T, y: T| call_requires(*mac, (a, x, y)),
                forall|p: int| 0 <= p < data@.len() ==> folds_pairs(*mac, zero,
                    strided(self.data@, (p / n as int) * k, 1, k as int), strided(rhs.data@, p % n as int, n as int, k as int), #[trigger] data@[p]),
            decreases m - i,
        {
            assert(i * n + n <= m * n) by (nonlinear_arith)
                requires i < m;
            let mut j: usize = 0;
            while j < n
                invariant
                    i < m,
                    j <= n,
                    i * n + n <= m * n,
                    m * n <= usize::MAX,
                    m * k == la,
                    self.data@.len() == m * k,
                    rhs.data@.len() == k * n,
                    data@.len() == i * n + j,
                    forall|a: T, x: T, y: T| call_requires(*mac, (a, x, y)),
                    forall|p: int| 0 <= p < data@.len() ==> folds_pairs(*mac, zero,
                        strided(self.data@, (p / n as int) * k, 1, k as int), strided(rhs.data@, p % n as int, n as int, k as int), #[trigger] data@[p]),
                decreases n - j,
            {
                assert(i * k + k <= m * k) by (nonlinear_arith)
                    requires i < m;
                assert(k > 0 ==> j + (k - 1) * n < k * n) by (nonlinear_arith)
                    requires j < n;
                let v = dot_strided(&self.data, i * k, 1, &rhs.data, j, n, k, zero, mac);
                proof {
                    let p = i * n + j;
                    vstd::arithmetic::div_mod::lemma_fundamental_div_mod_converse(p as int, n as int, i as int, j as int);
                }
                data.push(v);
                j = j + 1;
            }
            i = i + 1;
            assert(data@.len() == i * n) by (nonlinear_arith)
                requires data@.len() == (i - 1) * n + n;
        }
        assert(data@.len() == shape_size(seq![m, n]));
        let mut shape: Vec<usize> = Vec::new();
        shape.push(m);
        shape.push(n);
        assert(shape@ =~= seq![m, n]);
        Ok(Dense { shape, data })
    }
}

/// What the matrix product of `a` and `b` returns (see `Dense::matmul`).
pub open spec fn product_of<T: Copy, F: Fn(T, T, T) -> T>(a: Dense<T>, b: Dense<T>, zero: T, mac: F, r: Result<Dense<T>, ArrayError>) -> bool {
    &&& (r == Err::<Dense<T>, _>(ArrayError::UnsupportedShape) <==> !matmul_ranks(a.dims(), b.dims()))
    &&& (r == Err::<Dense<T>, _>(ArrayError::DimMismatch) <==> matmul_ranks(a.dims(), b.dims())
            && !matmul_inner_agree(a.dims(), b.dims()))
    &&& (r.is_ok() <==> matmul_ranks(a.dims(), b.dims()) && matmul_inner_agree(a.dims(), b.dims()))
    &&& (r.is_ok() && a.dims().len() == 1 ==> {
            let o = r.unwrap();
            &&& o.wf()
            &&& o.dims() == seq![1usize]
            &&& folds_pairs(mac, zero, a.elems(), b.elems(), o.at(0))
        })
    &&& (r.is_ok() && a.dims().len() == 2 ==> {
            let o = r.unwrap();
            let m = a.dims()[0] as int;
            let k = a.dims()[1] as int;
            let n = b.dims()[1] as int;
            &&& o.wf()
            &&& o.dims() == seq![m as usize, n as usize]
            &&& forall|p: int| 0 <= p < m * n ==> folds_pairs(mac, zero,
                    strided(a.elems(), (p / n) * k, 1, k), strided(b.elems(), p % n, n, k), #[trigger] o.at(p))
        })
}

/// What the reduction of `a` along the axes `dims` returns (see `Dense::sum`).
pub open spec fn sum_of<T: Copy, F: Fn(T, T) -> T>(a: Dense<T>, dims: Seq<usize>, zero: T, combine: F, r: Result<Dense<T>, ArrayError>) -> bool {
    &&& (r.is_err() <==> exists|k: int| 0 <= k < dims.len() && #[trigger] dims[k] >= a.dims().len())
    &&& (r.is_err() ==> r == Err::<Dense<T>, _>(ArrayError::AxisOutOfRange))
    &&& (r.is_ok() ==> r.unwrap().wf())
    &&& (r.is_ok() && dims.len() == 0 ==> r.unwrap().dims() == seq![1usize] && folds(combine, zero, a.elems(), r.unwrap().at(0)))
    &&& (r.is_ok() && dims.len() > 0 ==> r.unwrap().dims().len() == reduced_rank(a.dims().len(), axis_plan(dims, a.dims().len() as nat).len()))
    &&& (r.is_ok() && dims.len() > 0 ==> {
            let plan = axis_plan(dims, a.dims().len() as nat);
            let o = r.unwrap();
            exists|rs: Seq<usize>| reduces(combine, zero, a.dims(), a.elems(), plan, rs, o.elems())
                && o.dims() == (if rs.len() == 0 { seq![1usize] } else { rs })
        })
}

/// Both operands have rank 1, or both rank 2.
pub open spec fn matmul_ranks(a: Seq<usize>, b: Seq<usize>) -> bool {
    a.len() == b.len() && (a.len() == 1 || a.len() == 2)
}

/// The extent summed over agrees: the lengths of two vectors, or the columns of the
/// left matrix and the rows of the right one.
pub open spec fn matmul_inner_agree(a: Seq<usize>, b: Seq<usize>) -> bool {
    if a.len() == 1 {
        a[0] == b[0]
    } else {
        a[1] == b[0]
    }
}

/// Accumulates `mac(acc, v[vs + t * vstep], w[ws + t * wstep])` from `init` for
/// `t` in `0..k`.
fn dot_strided<T: Copy, F: Fn(T, T, T) -> T>(
    v: &Vec<T>,
    vs: usize,
    vstep: usize,
    w: &Vec<T>,
    ws: usize,
    wstep: usize,
    k: usize,
    init: T,
    mac: &F,
) -> (r: T)
    requires
        k > 0 ==> vs + (k - 1) * vstep < v.len() && ws + (k - 1) * wstep < w.len(),
        forall|a: T, x: T, y: T| call_requires(*mac, (a, x, y)),
    ensures
        folds_pairs(*mac, init, strided(v@, vs as int, vstep as int, k as int), strided(w@, ws as int, wstep as int, k as int), r),
{
    let mut acc = init;
    let mut t: usize = 0;
    let ghost trace: Seq<T> = seq![init];
    while t < k
        invariant
            t <= k,
            k > 0 ==> vs + (k - 1) * vstep < v.len() && ws + (k - 1) * wstep < w.len(),
            forall|a: T, x: T, y: T| call_requires(*mac, (a, x, y)),
            pair_trace(*mac, init, strided(v@, vs as int, vstep as int, t as int), strided(w@, ws as int, wstep as int, t as int), trace),
            trace.last() == acc,
        decreases k - t,
    {
        assert(t * vstep <= (k - 1) * vstep && t * wstep <= (k - 1) * wstep) by (nonlinear_arith)
            requires t < k;
        let ghost prev = trace;
        acc = mac(acc, v[vs + t * vstep], w[ws + t * wstep]);
        proof {
            trace = prev.push(acc);
            let xs = strided(v@, vs as int, vstep as int, t + 1);
            let ys = strided(w@, ws as int, wstep as int, t + 1);
            assert forall|q: int| 0 <= q < xs.len() implies call_ensures(*mac, (trace[q], xs[q], ys[q]), #[trigger] trace[q + 1]) by {
                if q < t {
                    assert(call_ensures(*mac, (prev[q], strided(v@, vs as int, vstep as int, t as int)[q],
                        strided(w@, ws as int, wstep as int, t as int)[q]), prev[q + 1]));
                }
            }
        }
        t = t + 1;
    }
    acc
}

/// Reversing the extents keeps the size.
pub proof fn lemma_size_reversed(s: Seq<usize>)
    ensures
        shape_size(reversed(s)) == shape_size(s),
    decreases s.len(),
{
    if s.len() > 0 {
        let r = reversed(s);
        let t = s.drop_first();
        lemma_size_reversed(t);
        lemma_size_split(r, r.len() - 1);
        assert(r.take(r.len() - 1) =~= reversed(t));
        assert(r.skip(r.len() - 1) =~= seq![s[0]]);
        crate::shape::lemma_size_one(s[0]);
        let a = shape_size(t);
        let b = s[0] as nat;
        assert(a * b == b * a) by (nonlinear_arith);
    }
}

proof fn lemma_plan_len(dims: Seq<usize>, n: nat)
    ensures
        axis_plan(dims, n).len() <= n,
    decreases n,
{
    if n > 0 {
        lemma_plan_len(dims, (n - 1) as nat);
    }
}

/// Row-major position of the multi-index `idx` in an array of shape `shape`.
fn flat_offset(shape: &Vec<usize>, idx: &Vec<usize>, total: usize) -> (r: usize)
    requires
        index_in(shape@, idx@),
        shape_size(shape@) <= total,
    ensures
        r == offset(shape@, idx@),
        r < shape_size(shape@),
{
    let n = shape.len();
    let ghost s = shape@;
    let ghost x = idx@;
    proof {
        lemma_offset_bound(s, x);
        assert forall|j: int| 0 <= j < n implies #[trigger] s[j] > 0 by {
            assert(x[j] < s[j]);
        }
        assert(s.take(0) =~= Seq::<usize>::empty());
        assert(x.take(0) =~= Seq::<usize>::empty());
    }
    let mut off: usize = 0;
    let mut k: usize = 0;
    while k < n
        invariant
            k <= n,
            n == s.len(),
            s == shape@,
            x == idx@,
            index_in(s, x),
            forall|j: int| 0 <= j < n ==> #[trigger] s[j] > 0,
            off == offset(s.take(k as int), x.take(k as int)),
            shape_size(s) <= total,
        decreases n - k,
    {
        proof {
            lemma_offset_push(s.take(k as int), x.take(k as int), s[k as int], x[k as int]);
            assert(s.take(k as int).push(s[k as int]) =~= s.take(k + 1));
            assert(x.take(k as int).push(x[k as int]) =~= x.take(k + 1));
            let t = s.take(k + 1);
            assert forall|j: int| 0 <= j < t.len() implies #[trigger] x.take(k + 1)[j] < t[j] by {
                assert(x[j] < s[j]);
            }
            lemma_offset_bound(t, x.take(k + 1));
            lemma_size_split(s, k + 1);
            assert forall|j: int| 0 <= j < s.skip(k + 1).len() implies #[trigger] s.skip(k + 1)[j] > 0 by {
                assert(s[k + 1 + j] > 0);
            }
            lemma_size_positive(s.skip(k + 1));
            let p = shape_size(t);
            let q = shape_size(s.skip(k + 1));
            assert(p * q >= p) by (nonlinear_arith)
                requires q >= 1;
            assert(off * s[k as int] + x[k as int] < shape_size(s));
        }
        off = off * shape[k] + idx[k];
        k = k + 1;
    }
    assert(s.take(n as int) =~= s);
    assert(x.take(n as int) =~= x);
    off
}

/// Whether every array met while reducing an array of shape `shape` along the
/// axes `dims` has a size that fits in `usize`.
pub fn reduction_fits_exec(shape: &Vec<usize>, dims: &Vec<usize>) -> (r: bool)
    ensures
        r == reduction_fits(shape@, axis_plan(dims@, shape@.len() as nat)),
{
    let plan = crate::shape::axes_in_order(dims, shape.len());
    let mut cur: Vec<usize> = shape.clone();
    let mut t: usize = 0;
    assert(plan@.skip(0) =~= plan@);
    while t < plan.len()
        invariant
            t <= plan@.len(),
            plan@ == axis_plan(dims@, shape@.len() as nat),
            reduction_fits(shape@, plan@) == reduction_fits(cur@, plan@.skip(t as int)),
        decreases plan@.len() - t,
    {
        proof {
            assert(plan@.skip(t as int).drop_first() =~= plan@.skip(t + 1));
            assert(plan@.skip(t as int)[0] == plan@[t as int]);
        }
        let ax = plan[t];
        if ax >= cur.len() {
            return false;
        }
        let next = crate::shape::remove_axis(&cur, ax);
        if size_of(&next).is_none() {
            return false;
        }
        cur = next;
        t = t + 1;
    }
    assert(plan@.skip(t as int).len() == 0);
    true
}

/// Whether two extent lists are equal.
fn same_dims(a: &Vec<usize>, b: &Vec<usize>) -> (r: bool)
    ensures
        r == (a@ == b@),
{
    if a.len() != b.len() {
        return false;
    }
    let mut i: usize = 0;
    while i < a.len()
        invariant
            i <= a.len(),
            a.len() == b.len(),
            forall|j: int| 0 <= j < i ==> a@[j] == b@[j],
        decreases a.len() - i,
    {
        if a[i] != b[i] {
            return false;
        }
        i = i + 1;
    }
    assert(a@ =~= b@);
    true
}

/// Folds `combine` from `init` over `v[start]`, `v[start + step]`, ... (`k` elements).
fn fold_strided<T: Copy, F: Fn(T, T) -> T>(v: &Vec<T>, start: usize, step: usize, k: usize, init: T, combine: &F) -> (r: T)
    requires
        k > 0 ==> start + (k - 1) * step < v.len(),
        forall|x: T, y: T| call_requires(*combine, (x, y)),
    ensures
        folds(*combine, init, strided(v@, start as int, step as int, k as int), r),
{
    let mut acc = init;
    let mut t: usize = 0;
    let ghost trace: Seq<T> = seq![init];
    while t < k
        invariant
            t <= k,
            k > 0 ==> start + (k - 1) * step < v.len(),
            forall|x: T, y: T| call_requires(*combine, (x, y)),
            fold_trace(*combine, init, strided(v@, start as int, step as int, t as int), trace),
            trace.last() == acc,
        decreases k - t,
    {
        assert(t * step <= (k - 1) * step) by (nonlinear_arith)
            requires t < k;
        let ghost prev = trace;
        acc = combine(acc, v[start + t * step]);
        proof {
            trace = prev.push(acc);
            let xs = strided(v@, start as int, step as int, t + 1);
            assert forall|q: int| 0 <= q < xs.len() implies call_ensures(*combine, (trace[q], xs[q]), #[trigger] trace[q + 1]) by {
                if q < t {
                    assert(call_ensures(*combine, (prev[q], strided(v@, start as int, step as int, t as int)[q]), prev[q + 1]));
                }
            }
        }
        t = t + 1;
    }
    acc
}

} // verus!
