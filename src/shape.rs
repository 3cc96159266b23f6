use vstd::prelude::*;

verus! {

/// Number of elements of an array of the given shape: the product of its extents.
pub open spec fn shape_size(s: Seq<usize>) -> nat
    decreases s.len(),
{
    if s.len() == 0 {
        1
    } else {
        s[0] as nat * shape_size(s.drop_first())
    }
}

/// The extents of `s` in reverse order.
pub open spec fn reversed(s: Seq<usize>) -> Seq<usize> {
    Seq::new(s.len(), |i: int| s[s.len() - 1 - i])
}

/// `idx` is a valid multi-index into an array of shape `s`.
pub open spec fn index_in(s: Seq<usize>, idx: Seq<usize>) -> bool {
    idx.len() == s.len() && forall|k: int| 0 <= k < s.len() ==> #[trigger] idx[k] < s[k]
}

/// Row-major position of the multi-index `idx` in an array of shape `s`.
pub open spec fn offset(s: Seq<usize>, idx: Seq<usize>) -> nat
    decreases s.len(),
{
    if s.len() == 0 || idx.len() == 0 {
        0
    } else {
        idx[0] as nat * shape_size(s.drop_first()) + offset(s.drop_first(), idx.drop_first())
    }
}

/// `s` with the axis `axis` taken out.
pub open spec fn without_axis(s: Seq<usize>, axis: int) -> Seq<usize> {
    s.take(axis) + s.skip(axis + 1)
}

/// Axes to reduce, in execution order, for the requested axes `dims` among the
/// first `n` axes: ascending and without repeats, the i-th one lowered by i because
/// each reduction before it has removed one axis below it.
pub open spec fn axis_plan(dims: Seq<usize>, n: nat) -> Seq<usize>
    decreases n,
{
    if n == 0 {
        seq![]
    } else {
        let p = axis_plan(dims, (n - 1) as nat);
        if dims.contains((n - 1) as usize) {
            p.push((n - 1 - p.len()) as usize)
        } else {
            p
        }
    }
}

/// The size of a shape is the size of its first `i` extents times the size of the rest.
pub proof fn lemma_size_split(s: Seq<usize>, i: int)
    requires
        0 <= i <= s.len(),
    ensures
        shape_size(s) == shape_size(s.take(i)) * shape_size(s.skip(i)),
    decreases i,
{
    if i == 0 {
        assert(s.skip(0) =~= s);
        assert(shape_size(s.take(0)) == 1);
    } else {
        lemma_size_split(s.drop_first(), i - 1);
        assert(s.take(i).drop_first() =~= s.drop_first().take(i - 1));
        assert(s.skip(i) =~= s.drop_first().skip(i - 1));
        let a = s[0] as nat;
        let b = shape_size(s.drop_first().take(i - 1));
        let c = shape_size(s.skip(i));
        assert(a * (b * c) == (a * b) * c) by (nonlinear_arith);
    }
}

/// A shape with a zero extent has no positions.
pub proof fn lemma_size_zero(s: Seq<usize>, k: int)
    requires
        0 <= k < s.len(),
        s[k] == 0,
    ensures
        shape_size(s) == 0,
    decreases s.len(),
{
    if k > 0 {
        lemma_size_zero(s.drop_first(), k - 1);
    }
    let a = s[0] as nat;
    let b = shape_size(s.drop_first());
    assert(a * b == 0) by (nonlinear_arith)
        requires a == 0 || b == 0;
}

/// A shape whose extents are all positive has at least one position.
pub proof fn lemma_size_positive(s: Seq<usize>)
    requires
        forall|k: int| 0 <= k < s.len() ==> #[trigger] s[k] > 0,
    ensures
        shape_size(s) >= 1,
    decreases s.len(),
{
    if s.len() > 0 {
        assert forall|k: int| 0 <= k < s.drop_first().len() implies #[trigger] s.drop_first()[k] > 0 by {
            assert(s[k + 1] > 0);
        }
        lemma_size_positive(s.drop_first());
        let a = s[0] as nat;
        let b = shape_size(s.drop_first());
        assert(a * b >= 1) by (nonlinear_arith)
            requires a >= 1, b >= 1;
    }
}

/// Size of the axis list of one element: a single extent.
pub proof fn lemma_size_one(d: usize)
    ensures
        shape_size(seq![d]) == d,
{
    assert(seq![d].drop_first() =~= Seq::<usize>::empty());
    assert(shape_size(Seq::<usize>::empty()) == 1);
    assert(d as nat * 1 == d);
}

/// Size of a two-extent shape.
pub proof fn lemma_size_two(m: usize, n: usize)
    ensures
        shape_size(seq![m, n]) == m * n,
{
    assert(seq![m, n].drop_first() =~= seq![n]);
    lemma_size_one(n);
}

/// Number of elements of an array of shape `shape`, or `None` where it does not fit
/// in `usize`.
pub fn size_of(shape: &Vec<usize>) -> (r: Option<usize>)
    ensures
        r.is_some() <==> shape_size(shape@) <= usize::MAX,
        r.is_some() ==> r.unwrap() == shape_size(shape@),
{
    let n = shape.len();
    let mut z: usize = 0;
    while z < n
        invariant
            z <= n,
            n == shape.len(),
            forall|k: int| 0 <= k < z ==> #[trigger] shape@[k] > 0,
        decreases n - z,
    {
        if shape[z] == 0 {
            proof {
                lemma_size_zero(shape@, z as int);
            }
            return Some(0);
        }
        z = z + 1;
    }
    let mut acc: usize = 1;
    let mut i: usize = n;
    proof {
        assert(shape@.skip(n as int) =~= Seq::<usize>::empty());
    }
    while i > 0
        invariant
            i <= n,
            n == shape.len(),
            forall|k: int| 0 <= k < n ==> #[trigger] shape@[k] > 0,
            acc == shape_size(shape@.skip(i as int)),
        decreases i,
    {
        assert(shape@.skip(i - 1).drop_first() =~= shape@.skip(i as int));
        assert(shape@.skip(i - 1)[0] == shape@[i - 1]);
        assert(acc * shape@[i - 1] == shape@[i - 1] * acc) by (nonlinear_arith);
        match acc.checked_mul(shape[i - 1]) {
            Some(p) => {
                acc = p;
                i = i - 1;
            },
            None => {
                proof {
                    let s = shape@;
                    lemma_size_split(s, i as int);
                    assert forall|k: int| 0 <= k < s.take(i as int).len() implies #[trigger] s.take(i as int)[k] > 0 by {
                        assert(s[k] > 0);
                    }
                    lemma_size_positive(s.take(i as int));
                    lemma_size_split(s.skip(i - 1), 1);
                    assert(s.skip(i - 1).skip(1) =~= s.skip(i as int));
                    assert(s.skip(i - 1).take(1) =~= seq![s[i - 1]]);
                    lemma_size_one(s[i - 1]);
                    let t = shape_size(s.skip(i - 1));
                    let pre = shape_size(s.take(i - 1));
                    lemma_size_split(s, i - 1);
                    assert forall|k: int| 0 <= k < s.take(i - 1).len() implies #[trigger] s.take(i - 1)[k] > 0 by {
                        assert(s[k] > 0);
                    }
                    lemma_size_positive(s.take(i - 1));
                    assert(pre * t >= t) by (nonlinear_arith)
                        requires pre >= 1;
                }
                return None;
            },
        }
    }
    assert(shape@.skip(0) =~= shape@);
    Some(acc)
}

/// Execution plan of a reduction over the axes `dims` of an array of rank `rank`;
/// `AxisOutOfRange` where some requested axis is not below the rank.
pub fn reduction_plan(dims: &Vec<usize>, rank: usize) -> (r: Result<Vec<usize>, crate::error::ArrayError>)
    ensures
        r.is_err() <==> exists|k: int| 0 <= k < dims.len() && #[trigger] dims@[k] >= rank,
        r.is_err() ==> r == Err::<Vec<usize>, _>(crate::error::ArrayError::AxisOutOfRange),
        r.is_ok() ==> r.unwrap()@ == axis_plan(dims@, rank as nat),
{
    let mut j: usize = 0;
    while j < dims.len()
        invariant
            j <= dims.len(),
            forall|k: int| 0 <= k < j ==> #[trigger] dims@[k] < rank,
        decreases dims.len() - j,
    {
        if dims[j] >= rank {
            return Err(crate::error::ArrayError::AxisOutOfRange);
        }
        j = j + 1;
    }
    Ok(axes_in_order(dims, rank))
}

/// The axes among the first `rank` that occur in `dims`, ascending and without
/// repeats, the i-th one lowered by i (see `axis_plan`).
pub fn axes_in_order(dims: &Vec<usize>, rank: usize) -> (r: Vec<usize>)
    ensures
        r@ == axis_plan(dims@, rank as nat),
{
    let mut plan: Vec<usize> = Vec::new();
    let mut k: usize = 0;
    while k < rank
        invariant
            k <= rank,
            plan@ == axis_plan(dims@, k as nat),
            plan.len() <= k,
        decreases rank - k,
    {
        let mut found = false;
        let mut t: usize = 0;
        while t < dims.len()
            invariant
                t <= dims.len(),
                found <==> exists|q: int| 0 <= q < t && dims@[q] == k,
            decreases dims.len() - t,
        {
            if dims[t] == k {
                found = true;
            }
            t = t + 1;
        }
        proof {
            if found {
                let q = choose|q: int| 0 <= q < t && dims@[q] == k;
                assert(dims@.contains(k));
            } else {
                assert(!dims@.contains(k));
            }
        }
        if found {
            plan.push(k - plan.len());
        }
        k = k + 1;
    }
    plan
}

/// `s` with the axis `axis` taken out.
pub fn remove_axis(s: &Vec<usize>, axis: usize) -> (r: Vec<usize>)
    requires
        axis < s.len(),
    ensures
        r@ == without_axis(s@, axis as int),
{
    let mut r: Vec<usize> = Vec::new();
    let mut k: usize = 0;
    while k < s.len()
        invariant
            k <= s.len(),
            axis < s.len(),
            r@ == (if k <= axis { s@.take(k as int) } else { s@.take(axis as int) + s@.subrange(axis + 1, k as int) }),
        decreases s.len() - k,
    {
        if k != axis {
            r.push(s[k]);
        }
        k = k + 1;
        proof {
            if k <= axis {
                assert(r@ =~= s@.take(k as int));
            } else {
                assert(r@ =~= s@.take(axis as int) + s@.subrange(axis + 1, k as int));
            }
        }
    }
    assert(s@.subrange(axis + 1, s@.len() as int) =~= s@.skip(axis + 1));
    r
}

} // verus!
