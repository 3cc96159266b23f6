//! Properties that relate several operations of the library.
use vstd::prelude::*;
use crate::array::{pointwise, transposed, uniform, zip_outcome, CpuArray, Element};
use crate::dense::{
    col_major_index, folds_pairs, lemma_offset_bound, lemma_size_reversed, pair_trace, product_of, strided, Dense,
};
use crate::dense::reduced_rank;
use crate::shape::{axis_plan, index_in, offset, reversed, shape_size};

verus! {

/// Reversing the axes twice gives the original extents.
pub proof fn law_transpose_shape(s: Seq<usize>)
    ensures
        reversed(reversed(s)) == s,
        reversed(s).len() == s.len(),
{
    assert(reversed(reversed(s)) =~= s);
}

proof fn lemma_plan_counts(dims: Seq<usize>, n: nat)
    requires
        n <= usize::MAX + 1,
    ensures
        dims.to_set().filter(|d: usize| d < n).finite(),
        axis_plan(dims, n).len() == dims.to_set().filter(|d: usize| d < n).len(),
    decreases n,
{
    broadcast use vstd::set::group_set_axioms, vstd::seq_lib::seq_to_set_is_finite;

    let b = dims.to_set().filter(|d: usize| d < n);
    dims.to_set().lemma_len_filter(|d: usize| d < n);
    if n == 0 {
        assert(b =~= Set::<usize>::empty());
    } else {
        let m = (n - 1) as nat;
        lemma_plan_counts(dims, m);
        let a = dims.to_set().filter(|d: usize| d < m);
        if dims.contains((n - 1) as usize) {
            assert(dims.to_set().contains((n - 1) as usize));
            assert(b =~= a.insert((n - 1) as usize));
            assert(!a.contains((n - 1) as usize));
        } else {
            assert(b =~= a);
        }
    }
}

/// Summing along `k` distinct axes, all below the rank `rank`, reduces `k` axes and
/// leaves `max(1, rank - k)` of them.
pub proof fn law_sum_rank(rank: nat, dims: Seq<usize>)
    requires
        rank <= usize::MAX,
        dims.no_duplicates(),
        forall|k: int| 0 <= k < dims.len() ==> #[trigger] dims[k] < rank,
    ensures
        axis_plan(dims, rank).len() == dims.len(),
        reduced_rank(rank, axis_plan(dims, rank).len()) == if rank > dims.len() { (rank - dims.len()) as nat } else { 1 },
{
    broadcast use vstd::set::group_set_axioms, vstd::seq_lib::seq_to_set_is_finite;

    lemma_plan_counts(dims, rank);
    assert forall|d: usize| dims.to_set().contains(d) implies d < rank by {
        let k = choose|k: int| 0 <= k < dims.len() && dims[k] == d;
        assert(dims[k] < rank);
    }
    assert(dims.to_set().filter(|d: usize| d < rank) =~= dims.to_set());
    dims.unique_seq_to_set();
}

/// Combining an array elementwise with an array of the same dtype and shape whose
/// every element is a right identity of the scalar operation (`x + 0`, `x * 1`)
/// gives the array back.
pub proof fn law_elementwise_neutral<S: Copy, D: Copy, FS: Fn(S, S) -> S, FD: Fn(D, D) -> D>(
    a: CpuArray<S, D>,
    z: CpuArray<S, D>,
    r: Result<CpuArray<S, D>, crate::error::ArrayError>,
    fs: FS,
    fd: FD,
    vs: S,
    vd: D,
)
    requires
        a.wf(),
        z.wf(),
        z.spec_dtype() == a.spec_dtype(),
        z.dims() == a.dims(),
        uniform(z, vs, vd),
        forall|x: S, y: S| call_ensures(fs, (x, vs), y) ==> y == x,
        forall|x: D, y: D| call_ensures(fd, (x, vd), y) ==> y == x,
        zip_outcome(a, z, r, fs, fd),
    ensures
        r.is_ok(),
        r.unwrap().spec_dtype() == a.spec_dtype(),
        r.unwrap().dims() == a.dims(),
        r.unwrap().elements() == a.elements(),
{
    let o = r.unwrap();
    match (a, z, o) {
        (CpuArray::F32Array(x), CpuArray::F32Array(y), CpuArray::F32Array(w)) => {
            assert forall|i: int| 0 <= i < w.elems().len() implies #[trigger] w.at(i) == x.at(i) by {
                assert(z.element_at(i) == Element::<S, D>::F32(vs));
            }
            assert(o.elements() =~= a.elements());
        },
        (CpuArray::F64Array(x), CpuArray::F64Array(y), CpuArray::F64Array(w)) => {
            assert forall|i: int| 0 <= i < w.elems().len() implies #[trigger] w.at(i) == x.at(i) by {
                assert(z.element_at(i) == Element::<S, D>::F64(vd));
            }
            assert(o.elements() =~= a.elements());
        },
        _ => {},
    }
}

/// Mapping an array whose every element is `vs` (or `vd`) with a scalar map that
/// sends `vs` to `ws` (and `vd` to `wd`), as the exponential sends zero to one,
/// gives an array of the same shape whose every element is `ws` (or `wd`).
pub proof fn law_pointwise_uniform<S: Copy, D: Copy, FS: Fn(S) -> S, FD: Fn(D) -> D>(
    a: CpuArray<S, D>,
    r: CpuArray<S, D>,
    fs: FS,
    fd: FD,
    vs: S,
    vd: D,
    ws: S,
    wd: D,
)
    requires
        uniform(a, vs, vd),
        pointwise(a, r, fs, fd),
        forall|y: S| call_ensures(fs, (vs,), y) ==> y == ws,
        forall|y: D| call_ensures(fd, (vd,), y) ==> y == wd,
    ensures
        r.spec_dtype() == a.spec_dtype(),
        r.dims() == a.dims(),
        r.len() == a.len(),
        uniform(r, ws, wd),
{
    match (a, r) {
        (CpuArray::F32Array(x), CpuArray::F32Array(z)) => {
            assert forall|i: int| 0 <= i < r.len() implies #[trigger] r.element_at(i) == Element::<S, D>::F32(ws) by {
                assert(a.element_at(i) == Element::<S, D>::F32(vs));
                assert(call_ensures(fs, (x.at(i),), z.at(i)));
            }
        },
        (CpuArray::F64Array(x), CpuArray::F64Array(z)) => {
            assert forall|i: int| 0 <= i < r.len() implies #[trigger] r.element_at(i) == Element::<S, D>::F64(wd) by {
                assert(a.element_at(i) == Element::<S, D>::F64(vd));
                assert(call_ensures(fd, (x.at(i),), z.at(i)));
            }
        },
        _ => {},
    }
}

/// Where the scalar map is idempotent (as `max(x, 0)` is), mapping an array twice
/// gives what mapping it once gives.
pub proof fn law_pointwise_idempotent<S: Copy, D: Copy, FS: Fn(S) -> S, FD: Fn(D) -> D>(
    a: CpuArray<S, D>,
    once: CpuArray<S, D>,
    twice: CpuArray<S, D>,
    fs: FS,
    fd: FD,
)
    requires
        pointwise(a, once, fs, fd),
        pointwise(once, twice, fs, fd),
        forall|x: S, y: S, w: S| #[trigger] call_ensures(fs, (x,), y) && #[trigger] call_ensures(fs, (y,), w) ==> w == y,
        forall|x: D, y: D, w: D| #[trigger] call_ensures(fd, (x,), y) && #[trigger] call_ensures(fd, (y,), w) ==> w == y,
    ensures
        twice.spec_dtype() == once.spec_dtype(),
        twice.dims() == once.dims(),
        twice.elements() == once.elements(),
{
    match (a, once, twice) {
        (CpuArray::F32Array(x), CpuArray::F32Array(y), CpuArray::F32Array(w)) => {
            assert forall|i: int| 0 <= i < w.elems().len() implies #[trigger] w.at(i) == y.at(i) by {
                assert(call_ensures(fs, (x.at(i),), y.at(i)));
                assert(call_ensures(fs, (y.at(i),), w.at(i)));
            }
            assert(twice.elements() =~= once.elements());
        },
        (CpuArray::F64Array(x), CpuArray::F64Array(y), CpuArray::F64Array(w)) => {
            assert forall|i: int| 0 <= i < w.elems().len() implies #[trigger] w.at(i) == y.at(i) by {
                assert(call_ensures(fd, (x.at(i),), y.at(i)));
                assert(call_ensures(fd, (y.at(i),), w.at(i)));
            }
            assert(twice.elements() =~= once.elements());
        },
        _ => {},
    }
}

/// Position of the multi-index `y` in an array of shape `s` when the first axis
/// varies fastest.
pub open spec fn col_offset(s: Seq<usize>, y: Seq<usize>) -> nat
    decreases s.len(),
{
    if s.len() == 0 || y.len() == 0 {
        0
    } else {
        y[0] as nat + s[0] as nat * col_offset(s.drop_first(), y.drop_first())
    }
}

proof fn lemma_col_offset_push(s: Seq<usize>, y: Seq<usize>, d: usize, c: usize)
    requires
        y.len() == s.len(),
    ensures
        col_offset(s.push(d), y.push(c)) == col_offset(s, y) + shape_size(s) * c,
    decreases s.len(),
{
    if s.len() == 0 {
        assert(s.push(d).drop_first() =~= Seq::<usize>::empty());
        assert(y.push(c).drop_first() =~= Seq::<usize>::empty());
        assert(s.push(d)[0] == d && y.push(c)[0] == c);
        assert(col_offset(Seq::<usize>::empty(), Seq::<usize>::empty()) == 0);
        assert(d as nat * 0 == 0) by (nonlinear_arith);
        assert(col_offset(s.push(d), y.push(c)) == c as nat + d as nat * 0);
        assert(shape_size(s) == 1);
        assert(1 * (c as nat) == c);
        assert(col_offset(s, y) == 0);
    } else {
        let s1 = s.drop_first();
        let y1 = y.drop_first();
        assert(s.push(d).drop_first() =~= s1.push(d));
        assert(y.push(c).drop_first() =~= y1.push(c));
        assert(s.push(d)[0] == s[0] && y.push(c)[0] == y[0]);
        lemma_col_offset_push(s1, y1, d, c);
        let a = s[0] as nat;
        let o = col_offset(s1, y1);
        let z = shape_size(s1);
        assert(a * (o + z * c) == a * o + (a * z) * c) by (nonlinear_arith);
        assert(col_offset(s.push(d), y.push(c)) == y[0] as nat + a * col_offset(s1.push(d), y1.push(c)));
        assert(col_offset(s, y) == y[0] as nat + a * o);
        assert(shape_size(s) == a * z);
    }
}

proof fn lemma_offset_reversed(s: Seq<usize>, x: Seq<usize>)
    requires
        x.len() == s.len(),
    ensures
        offset(reversed(s), x) == col_offset(s, reversed(x)),
    decreases s.len(),
{
    if s.len() > 0 {
        let s0 = s.drop_last();
        let x1 = x.drop_first();
        lemma_offset_reversed(s0, x1);
        assert(reversed(s).drop_first() =~= reversed(s0));
        assert(reversed(x) =~= reversed(x1).push(x[0]));
        assert(s =~= s0.push(s.last()));
        lemma_col_offset_push(s0, reversed(x1), s.last(), x[0]);
        lemma_size_reversed(s0);
        let a = x[0] as nat;
        let z = shape_size(s0);
        assert(a * z == z * a) by (nonlinear_arith);
    }
}

proof fn lemma_col_major_of_offset(s: Seq<usize>, y: Seq<usize>)
    requires
        index_in(s, y),
    ensures
        col_major_index(s, col_offset(s, y)) == y,
    decreases s.len(),
{
    if s.len() > 0 {
        let s1 = s.drop_first();
        let y1 = y.drop_first();
        assert(y[0] < s[0]);
        assert forall|k: int| 0 <= k < s1.len() implies #[trigger] y1[k] < s1[k] by {
            assert(y[k + 1] < s[k + 1]);
        }
        lemma_col_major_of_offset(s1, y1);
        let c = col_offset(s, y);
        let q = col_offset(s1, y1);
        assert(c == y[0] as nat + s[0] as nat * q);
        assert(c == q * s[0] + y[0]) by (nonlinear_arith)
            requires c == y[0] as nat + s[0] as nat * q;
        vstd::arithmetic::div_mod::lemma_fundamental_div_mod_converse(c as int, s[0] as int, q as int, y[0] as int);
        assert(col_major_index(s, c) =~= y);
    } else {
        assert(col_major_index(s, col_offset(s, y)) =~= y);
    }
}

proof fn lemma_offset_of_col_major(s: Seq<usize>, j: nat)
    requires
        j < shape_size(s),
    ensures
        col_offset(s, col_major_index(s, j)) == j,
        index_in(s, col_major_index(s, j)),
    decreases s.len(),
{
    if s.len() > 0 {
        let s1 = s.drop_first();
        let d = s[0] as nat;
        let m = shape_size(s1);
        assert(j < d * m);
        assert(d > 0) by (nonlinear_arith)
            requires j < d * m;
        vstd::arithmetic::div_mod::lemma_fundamental_div_mod(j as int, d as int);
        let q = j / d;
        let r = j % d;
        assert(q < m) by (nonlinear_arith)
            requires j == d * q + r, r >= 0, j < d * m, d > 0;
        lemma_offset_of_col_major(s1, q);
        let c = col_major_index(s, j);
        assert(c.drop_first() =~= col_major_index(s1, q));
        assert(c[0] == r);
        let rest = col_major_index(s1, q);
        assert forall|k: int| 0 <= k < s.len() implies #[trigger] c[k] < s[k] by {
            if k > 0 {
                assert(c[k] == rest[k - 1]);
            }
        }
    } else {
        assert(j == 0);
    }
}

/// Transposing twice gives back the original array: the same dtype, extents and
/// elements.
pub proof fn law_transpose_involution<S: Copy, D: Copy>(a: CpuArray<S, D>, once: CpuArray<S, D>, twice: CpuArray<S, D>)
    requires
        a.wf(),
        transposed(a, once),
        transposed(once, twice),
    ensures
        twice.spec_dtype() == a.spec_dtype(),
        twice.dims() == a.dims(),
        twice.elements() == a.elements(),
{
    let s = a.dims();
    let t = reversed(s);
    law_transpose_shape(s);
    assert(a.len() == shape_size(s)) by {
        match a {
            CpuArray::F32Array(x) => {},
            CpuArray::F64Array(x) => {},
        }
    }
    lemma_size_reversed(s);
    assert forall|j: int| 0 <= j < twice.len() implies #[trigger] twice.element_at(j) == a.element_at(j) by {
        let x = col_major_index(t, j as nat);
        lemma_offset_of_col_major(t, j as nat);
        lemma_offset_bound(t, x);
        let p = offset(t, x);
        assert(twice.element_at(j) == once.element_at(p as int));
        let y = reversed(x);
        lemma_offset_reversed(s, x);
        assert forall|k: int| 0 <= k < s.len() implies #[trigger] y[k] < s[k] by {
            assert(x[s.len() - 1 - k] < t[s.len() - 1 - k]);
        }
        lemma_col_major_of_offset(s, y);
        assert(col_major_index(s, p) == y);
        lemma_offset_reversed(t, y);
        assert(reversed(y) =~= x);
        assert(offset(s, y) == offset(reversed(t), y));
        assert(offset(s, y) == col_offset(t, x));
        assert(once.element_at(p as int) == a.element_at(offset(s, y) as int));
    }
    assert(twice.elements() =~= a.elements());
}

proof fn lemma_identity_column<T, F: Fn(T, T, T) -> T>(
    mac: F,
    zero: T,
    one: T,
    xs: Seq<T>,
    ys: Seq<T>,
    acc: Seq<T>,
    j: int,
    t: int,
)
    requires
        pair_trace(mac, zero, xs, ys, acc),
        0 <= j < xs.len(),
        0 <= t <= xs.len(),
        forall|q: int| 0 <= q < ys.len() ==> #[trigger] ys[q] == if q == j { one } else { zero },
        forall|c: T, x: T, w: T| call_ensures(mac, (c, x, zero), w) ==> w == c,
        forall|x: T, w: T| call_ensures(mac, (zero, x, one), w) ==> w == x,
    ensures
        acc[t] == if t <= j { zero } else { xs[j] },
    decreases t,
{
    if t > 0 {
        lemma_identity_column(mac, zero, one, xs, ys, acc, j, t - 1);
        let u = t - 1;
        assert(call_ensures(mac, (acc[u], xs[u], ys[u]), acc[u + 1]));
    }
}

/// Multiplying a matrix by an identity matrix (the one element on the diagonal,
/// the zero element elsewhere) gives the matrix back, where the scalar
/// accumulation leaves the accumulator unchanged when it multiplies by the zero
/// element and turns the zero accumulator into `x` when it multiplies `x` by the
/// one element.
pub proof fn law_matmul_identity<T: Copy, F: Fn(T, T, T) -> T>(
    a: Dense<T>,
    id: Dense<T>,
    r: Result<Dense<T>, crate::error::ArrayError>,
    zero: T,
    one: T,
    mac: F,
)
    requires
        a.wf(),
        id.wf(),
        a.dims().len() == 2,
        id.dims() == seq![a.dims()[1], a.dims()[1]],
        forall|p: int| 0 <= p < id.elems().len() ==> #[trigger] id.at(p) == if p / (a.dims()[1] as int) == p % (a.dims()[1] as int) { one } else { zero },
        forall|c: T, x: T, w: T| call_ensures(mac, (c, x, zero), w) ==> w == c,
        forall|x: T, w: T| call_ensures(mac, (zero, x, one), w) ==> w == x,
        product_of(a, id, zero, mac, r),
    ensures
        r.is_ok(),
        r.unwrap().dims() == a.dims(),
        r.unwrap().elems() == a.elems(),
{
    let m = a.dims()[0] as int;
    let k = a.dims()[1] as int;
    assert(a.dims() =~= seq![m as usize, k as usize]);
    crate::shape::lemma_size_two(m as usize, k as usize);
    crate::shape::lemma_size_two(k as usize, k as usize);
    crate::shape::lemma_size_two(m as usize, k as usize);
    let o = r.unwrap();
    assert forall|p: int| 0 <= p < m * k implies #[trigger] o.at(p) == a.at(p) by {
        assert(k > 0) by (nonlinear_arith)
            requires 0 <= p < m * k, m >= 0;
        vstd::arithmetic::div_mod::lemma_fundamental_div_mod(p, k);
        let i = p / k;
        let j = p % k;
        assert(i < m) by (nonlinear_arith)
            requires p == k * i + j, 0 <= j, p < m * k, k > 0;
        let xs = strided(a.elems(), i * k, 1, k);
        let ys = strided(id.elems(), j, k, k);
        assert(folds_pairs(mac, zero, xs, ys, o.at(p)));
        let acc = choose|acc: Seq<T>| #[trigger] pair_trace(mac, zero, xs, ys, acc) && acc.last() == o.at(p);
        assert forall|q: int| 0 <= q < ys.len() implies #[trigger] ys[q] == if q == j { one } else { zero } by {
            assert(j + q * k < k * k) by (nonlinear_arith)
                requires 0 <= j < k, 0 <= q < k;
            assert(j + q * k == q * k + j);
            vstd::arithmetic::div_mod::lemma_fundamental_div_mod_converse(j + q * k, k, q, j);
            assert(id.at(j + q * k) == if q == j { one } else { zero });
        }
        lemma_identity_column(mac, zero, one, xs, ys, acc, j, k);
        assert(xs[j] == a.at(i * k + j * 1));
        assert(i * k + j == p) by (nonlinear_arith)
            requires p == k * i + j;
    }
    assert(r.is_ok());
    assert(o.wf());
    assert(o.dims() == seq![m as usize, k as usize]);
    assert(o.elems().len() == m * k);
    assert(a.elems().len() == m * k);
    assert forall|p: int| 0 <= p < m * k implies o.elems()[p] == a.elems()[p] by {
        assert(o.at(p) == a.at(p));
    }
    assert(o.elems() =~= a.elems());
}

} // verus!
