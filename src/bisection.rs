//! Each eigenvalue by bisection on the Sturm count.
//!
//! An eigenvalue is located to one unit: the result for the `t`-th smallest
//! eigenvalue (counting from one) is the point `v` at which the count first
//! reaches `t`, so that the eigenvalue lies in `[v, v + 1)`. The count never
//! decreases (`lemma_sturm_count_monotone`), so that point is unique, and
//! every way of finding it gives the same answer.

use vstd::prelude::*;
use rayon::iter::{IndexedParallelIterator, IntoParallelIterator, ParallelIterator};
use crate::bands::{bands_error, check_bands, valid_bands, MatrixError, MAX_ENTRY};
use crate::gershgorin::{bounds_of, gershgorin_lower, gershgorin_upper};
use crate::sturm::{count_below, lemma_sturm_count_at_bounds, lemma_sturm_count_monotone, sturm_count};

verus! {

/// Fewer than `t` eigenvalues lie below `v`, and at least `t` lie below
/// `v + 1`: the `t`-th smallest eigenvalue lies in `[v, v + 1)`.
pub open spec fn crossing(diagonal: Seq<i64>, off_diagonal: Seq<i64>, v: int, t: nat) -> bool {
    sturm_count(diagonal, off_diagonal, v) < t <= sturm_count(diagonal, off_diagonal, v + 1)
}

/// `v` holds, at index `j`, the crossing point of the `(j + 1)`-th smallest
/// eigenvalue, for every row of the matrix: the eigenvalues in ascending
/// order.
pub open spec fn ascending_eigenvalues(
    diagonal: Seq<i64>,
    off_diagonal: Seq<i64>,
    v: Seq<i64>,
) -> bool {
    &&& v.len() == diagonal.len()
    &&& forall|j: int|
        0 <= j < v.len() ==> crossing(diagonal, off_diagonal, #[trigger] v[j] as int, (j + 1) as nat)
}

/// There is one crossing point for each count.
pub proof fn lemma_crossing_unique(
    diagonal: Seq<i64>,
    off_diagonal: Seq<i64>,
    v: int,
    w: int,
    t: nat,
)
    requires
        crossing(diagonal, off_diagonal, v, t),
        crossing(diagonal, off_diagonal, w, t),
    ensures
        v == w,
{
    if v < w {
        lemma_sturm_count_monotone(diagonal, off_diagonal, v + 1, w);
    } else if w < v {
        lemma_sturm_count_monotone(diagonal, off_diagonal, w + 1, v);
    }
}

/// Every eigenvalue that the solver returns lies within the Gershgorin
/// bounds of the same bands, and the eigenvalues come in ascending order.
pub proof fn lemma_eigenvalues_within_bounds(
    diagonal: Seq<i64>,
    off_diagonal: Seq<i64>,
    v: Seq<i64>,
)
    requires
        valid_bands(diagonal, off_diagonal),
        ascending_eigenvalues(diagonal, off_diagonal, v),
    ensures
        forall|j: int|
            0 <= j < v.len() ==> gershgorin_lower(diagonal, off_diagonal) <= #[trigger] v[j]
                <= gershgorin_upper(diagonal, off_diagonal),
        forall|i: int, j: int| 0 <= i <= j < v.len() ==> v[i] <= v[j],
{
    let lower = gershgorin_lower(diagonal, off_diagonal);
    let upper = gershgorin_upper(diagonal, off_diagonal);
    lemma_sturm_count_at_bounds(diagonal, off_diagonal);
    assert forall|j: int| 0 <= j < v.len() implies lower <= #[trigger] v[j] <= upper by {
        assert(crossing(diagonal, off_diagonal, v[j] as int, (j + 1) as nat));
        if v[j] < lower {
            lemma_sturm_count_monotone(diagonal, off_diagonal, v[j] + 1, lower);
        }
        if v[j] > upper {
            lemma_sturm_count_monotone(diagonal, off_diagonal, upper + 1, v[j] as int);
        }
    }
    assert forall|i: int, j: int| 0 <= i <= j < v.len() implies v[i] <= v[j] by {
        assert(crossing(diagonal, off_diagonal, v[i] as int, (i + 1) as nat));
        assert(crossing(diagonal, off_diagonal, v[j] as int, (j + 1) as nat));
        if v[j] < v[i] {
            lemma_sturm_count_monotone(diagonal, off_diagonal, v[j] + 1, v[i] as int);
        }
    }
}

/// Two vectors that both list the eigenvalues of the same bands are equal.
/// So solving the same bands twice gives the same result, since nothing
/// carries over from one call to the next, and the parallel solver
/// (`tridiagonal_eigenvalues`) and the sequential sweep with shared bounds
/// (`tridiagonal_eigenvalues_shared_bounds`) return the same vector.
pub proof fn lemma_eigenvalues_unique(
    diagonal: Seq<i64>,
    off_diagonal: Seq<i64>,
    v: Seq<i64>,
    w: Seq<i64>,
)
    requires
        ascending_eigenvalues(diagonal, off_diagonal, v),
        ascending_eigenvalues(diagonal, off_diagonal, w),
    ensures
        v == w,
{
    assert forall|j: int| 0 <= j < v.len() implies v[j] == w[j] by {
        assert(crossing(diagonal, off_diagonal, v[j] as int, (j + 1) as nat));
        assert(crossing(diagonal, off_diagonal, w[j] as int, (j + 1) as nat));
        lemma_crossing_unique(diagonal, off_diagonal, v[j] as int, w[j] as int, (j + 1) as nat);
    }
    assert(v =~= w);
}

/// Halves `[lo, hi)` until it is one unit wide, keeping the count at `lo`
/// below `t` and the count at `hi` at least `t`.
pub(crate) fn bisect(diagonal: &[i64], off_diagonal: &[i64], t: usize, lo: i64, hi: i64) -> (r: i64)
    requires
        valid_bands(diagonal@, off_diagonal@),
        -3 * MAX_ENTRY <= lo < hi <= 3 * MAX_ENTRY + 1,
        sturm_count(diagonal@, off_diagonal@, lo as int) < t,
        t <= sturm_count(diagonal@, off_diagonal@, hi as int),
    ensures
        crossing(diagonal@, off_diagonal@, r as int, t as nat),
        lo <= r < hi,
{
    let mut lower = lo;
    let mut upper = hi;
    while upper - lower > 1
        invariant
            valid_bands(diagonal@, off_diagonal@),
            lo <= lower < upper <= hi,
            -3 * MAX_ENTRY <= lo,
            hi <= 3 * MAX_ENTRY + 1,
            sturm_count(diagonal@, off_diagonal@, lower as int) < t,
            t <= sturm_count(diagonal@, off_diagonal@, upper as int),
        decreases upper - lower,
    {
        let mid = lower + (upper - lower) / 2;
        if count_below(diagonal, off_diagonal, mid) >= t {
            upper = mid;
        } else {
            lower = mid;
        }
    }
    lower
}

/// The `k`-th largest eigenvalue (`k = 0` is the largest) of valid bands.
pub(crate) fn kth_largest(diagonal: &[i64], off_diagonal: &[i64], k: usize) -> (r: i64)
    requires
        valid_bands(diagonal@, off_diagonal@),
        k < diagonal@.len(),
    ensures
        crossing(diagonal@, off_diagonal@, r as int, (diagonal@.len() - k) as nat),
{
    let (lower, upper) = bounds_of(diagonal, off_diagonal);
    proof {
        lemma_sturm_count_at_bounds(diagonal@, off_diagonal@);
    }
    bisect(diagonal, off_diagonal, diagonal.len() - k, lower, upper + 1)
}

/// The `j`-th smallest eigenvalue (`j = 0` is the smallest) of valid bands.
pub(crate) fn kth_smallest(diagonal: &[i64], off_diagonal: &[i64], j: usize) -> (r: i64)
    requires
        valid_bands(diagonal@, off_diagonal@),
        j < diagonal@.len(),
    ensures
        crossing(diagonal@, off_diagonal@, r as int, (j + 1) as nat),
{
    kth_largest(diagonal, off_diagonal, diagonal.len() - 1 - j)
}

/// The `k`-th largest eigenvalue of the matrix with the given bands:
/// `k = 0` is the largest and `k = n - 1` the smallest. The result `v` is
/// the point where the count of eigenvalues below reaches `n - k`, so the
/// eigenvalue lies in `[v, v + 1)`.
pub fn kth_eigenvalue(diagonal: &[i64], off_diagonal: &[i64], k: usize) -> (r: Result<
    i64,
    MatrixError,
>)
    requires
        k < diagonal@.len(),
    ensures
        r is Ok <==> valid_bands(diagonal@, off_diagonal@),
        r matches Ok(v) ==> crossing(
            diagonal@,
            off_diagonal@,
            v as int,
            (diagonal@.len() - k) as nat,
        ),
        r matches Err(e) ==> bands_error(diagonal@, off_diagonal@) == Some(e),
{
    match check_bands(diagonal, off_diagonal) {
        Err(e) => Err(e),
        Ok(()) => Ok(kth_largest(diagonal, off_diagonal, k)),
    }
}

/// Relies on rayon's `collect_into_vec` over an indexed parallel range: the
/// vector is cleared, then holds the mapped value of `0, 1, ..., n - 1` in
/// that order, whichever thread computed each. Each entry is computed by the
/// verified `kth_smallest`, whose `requires` the bands meet. So every
/// eigenvalue of valid bands comes back in ascending order, each found by
/// its own bisection.
#[verifier::external_body]
pub(crate) fn eigenvalues_in_parallel(diagonal: &[i64], off_diagonal: &[i64]) -> (r: Vec<i64>)
    requires
        valid_bands(diagonal@, off_diagonal@),
    ensures
        ascending_eigenvalues(diagonal@, off_diagonal@, r@),
{
    let mut out: Vec<i64> = Vec::new();
    (0..diagonal.len()).into_par_iter().map(|j| kth_smallest(diagonal, off_diagonal, j)).collect_into_vec(
        &mut out,
    );
    out
}

/// Every eigenvalue of the matrix with the given bands, in ascending order,
/// after checking the bands. Entry `j` is the point where the count of
/// eigenvalues below reaches `j + 1`.
pub fn tridiagonal_eigenvalues(diagonal: &[i64], off_diagonal: &[i64]) -> (r: Result<
    Vec<i64>,
    MatrixError,
>)
    ensures
        r is Ok <==> valid_bands(diagonal@, off_diagonal@),
        r matches Ok(v) ==> ascending_eigenvalues(diagonal@, off_diagonal@, v@),
        r matches Err(e) ==> bands_error(diagonal@, off_diagonal@) == Some(e),
{
    match check_bands(diagonal, off_diagonal) {
        Err(e) => Err(e),
        Ok(()) => Ok(eigenvalues_in_parallel(diagonal, off_diagonal)),
    }
}

} // verus!
