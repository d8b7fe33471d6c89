use vstd::prelude::*;

verus! {

/// A mathematical integer fits in the element type of the containers.
pub open spec fn in64(x: int) -> bool {
    i64::MIN <= x <= i64::MAX
}

/// Every pairwise sum of two sequences stays within the element type.
pub open spec fn add_fits(a: Seq<i64>, b: Seq<i64>) -> bool {
    forall|t: int| 0 <= t < a.len() ==> in64((#[trigger] a[t]) + b[t])
}

/// Every pairwise difference of two sequences stays within the element type.
pub open spec fn sub_fits(a: Seq<i64>, b: Seq<i64>) -> bool {
    forall|t: int| 0 <= t < a.len() ==> in64((#[trigger] a[t]) - b[t])
}

/// Sum of the first `k` pairwise products of two sequences: the inner
/// product read up to position `k`.
pub open spec fn sum_prod(a: Seq<i64>, b: Seq<i64>, k: int) -> int
    decreases k,
{
    if k <= 0 {
        0
    } else {
        sum_prod(a, b, k - 1) + a[k - 1] * b[k - 1]
    }
}

/// Every product and every partial sum of the inner product of `a` and `b`
/// stays within the element type.  This is the machine-limit precondition of
/// the exact summation loops.
pub open spec fn dot_fits(a: Seq<i64>, b: Seq<i64>) -> bool {
    &&& forall|t: int| 0 <= t < a.len() ==> in64((#[trigger] a[t]) * b[t])
    &&& forall|k: int| 0 <= k <= a.len() ==> in64(#[trigger] sum_prod(a, b, k))
}

/// Every element of `a` scaled by `s` stays within the element type.
pub open spec fn scale_fits(a: Seq<i64>, s: i64) -> bool {
    forall|t: int| 0 <= t < a.len() ==> in64((#[trigger] a[t]) * s)
}

/// Entry `k` of the cyclic cross product of two sequences of length `n`:
/// the classical three-dimensional formula, with the indices read cyclically
/// so that it applies to any common length.
pub open spec fn cross_term(a: Seq<i64>, b: Seq<i64>, k: int, n: int) -> int {
    a[(k + 1) % n] * b[(k + 2) % n] - a[(k + 2) % n] * b[(k + 1) % n]
}

/// Both products and the difference of every cross-product entry stay within
/// the element type.
pub open spec fn cross_fits(a: Seq<i64>, b: Seq<i64>) -> bool {
    &&& forall|k: int|
        0 <= k < a.len() ==> in64(
            (#[trigger] a[(k + 1) % (a.len() as int)]) * b[(k + 2) % (a.len() as int)],
        )
    &&& forall|k: int|
        0 <= k < a.len() ==> in64(
            (#[trigger] a[(k + 2) % (a.len() as int)]) * b[(k + 1) % (a.len() as int)],
        )
    &&& forall|k: int| 0 <= k < a.len() ==> in64(#[trigger] cross_term(a, b, k, a.len() as int))
}

} // verus!
