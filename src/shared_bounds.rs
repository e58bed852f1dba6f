//! All eigenvalues in one sequential sweep that shares bounds between the
//! searches.
//!
//! This is the alternative to the parallel solver of
//! `tridiagonal_eigenvalues`, which stays the default. The sweep goes from
//! the largest eigenvalue down to the smallest. Every count taken during a
//! bisection says something about other eigenvalues too: after `c` of them
//! are found below `mid`, `mid` is a lower bound of eigenvalue `c` and an
//! upper bound of eigenvalue `c - 1` (indices ascending from zero). Those
//! bounds are kept in two solve-local arrays and narrow the later searches.
//! The arrays are written on every step, so the sweep runs on one thread.

use vstd::prelude::*;
use crate::bands::{bands_error, check_bands, valid_bands, MatrixError, MAX_ENTRY};
use crate::bisection::{ascending_eigenvalues, crossing};
use crate::gershgorin::{bounds_of, gershgorin_lower, gershgorin_upper};
use crate::sturm::{count_below, lemma_sturm_count_at_bounds, lemma_sturm_count_monotone, sturm_count};

verus! {

/// A vector of `n` copies of `value`.
fn filled(value: i64, n: usize) -> (r: Vec<i64>)
    ensures
        r@.len() == n,
        forall|i: int| 0 <= i < n ==> r@[i] == value,
{
    let mut r: Vec<i64> = Vec::new();
    let mut i: usize = 0;
    while i < n
        invariant
            i <= n,
            r@.len() == i,
            forall|j: int| 0 <= j < i ==> r@[j] == value,
        decreases n - i,
    {
        r.push(value);
        i = i + 1;
    }
    r
}

/// `lower_bounds[i]` has at most `i` eigenvalues below it, so eigenvalue `i`
/// is at or above it; `upper_bounds[i]` has more than `i` below it.
spec fn bounds_hold(
    diagonal: Seq<i64>,
    off_diagonal: Seq<i64>,
    lower_bounds: Seq<i64>,
    upper_bounds: Seq<i64>,
) -> bool {
    &&& lower_bounds.len() == diagonal.len()
    &&& upper_bounds.len() == diagonal.len()
    &&& forall|i: int|
        0 <= i < lower_bounds.len() ==> {
            &&& gershgorin_lower(diagonal, off_diagonal) <= #[trigger] lower_bounds[i]
                <= gershgorin_upper(diagonal, off_diagonal) + 1
            &&& sturm_count(diagonal, off_diagonal, lower_bounds[i] as int) <= i
        }
    &&& forall|i: int|
        0 <= i < upper_bounds.len() ==> {
            &&& gershgorin_lower(diagonal, off_diagonal) <= #[trigger] upper_bounds[i]
                <= gershgorin_upper(diagonal, off_diagonal) + 1
            &&& sturm_count(diagonal, off_diagonal, upper_bounds[i] as int) > i
        }
}

/// The tightest lower bound recorded for any of eigenvalues `0..=k`, which
/// bounds eigenvalue `k` from below as well.
fn start_of_search(
    diagonal: &[i64],
    off_diagonal: &[i64],
    lower_bounds: &Vec<i64>,
    upper_bounds: &Vec<i64>,
    lower: i64,
    k: usize,
) -> (r: i64)
    requires
        valid_bands(diagonal@, off_diagonal@),
        bounds_hold(diagonal@, off_diagonal@, lower_bounds@, upper_bounds@),
        lower == gershgorin_lower(diagonal@, off_diagonal@),
        k < diagonal@.len(),
    ensures
        lower <= r <= gershgorin_upper(diagonal@, off_diagonal@) + 1,
        sturm_count(diagonal@, off_diagonal@, r as int) <= k,
{
    proof {
        lemma_sturm_count_at_bounds(diagonal@, off_diagonal@);
    }
    let mut best = lower;
    let mut i: usize = 0;
    while i < lower_bounds.len() && i <= k
        invariant
            valid_bands(diagonal@, off_diagonal@),
            bounds_hold(diagonal@, off_diagonal@, lower_bounds@, upper_bounds@),
            lower == gershgorin_lower(diagonal@, off_diagonal@),
            k < diagonal@.len(),
            i <= k + 1,
            lower <= best <= gershgorin_upper(diagonal@, off_diagonal@) + 1,
            sturm_count(diagonal@, off_diagonal@, best as int) <= k,
        decreases k + 1 - i,
    {
        if lower_bounds[i] > best {
            best = lower_bounds[i];
        }
        i = i + 1;
    }
    best
}

/// Every eigenvalue of valid bands, in ascending order, by the sequential
/// sweep with shared bounds.
pub(crate) fn shared_bounds_eigenvalues_of(diagonal: &[i64], off_diagonal: &[i64]) -> (r: Vec<
    i64,
>)
    requires
        valid_bands(diagonal@, off_diagonal@),
    ensures
        ascending_eigenvalues(diagonal@, off_diagonal@, r@),
{
    let n = diagonal.len();
    let (lower, upper) = bounds_of(diagonal, off_diagonal);
    proof {
        lemma_sturm_count_at_bounds(diagonal@, off_diagonal@);
    }
    let mut lower_bounds = filled(lower, n);
    let mut upper_bounds = filled(upper + 1, n);
    let mut result = filled(lower, n);
    let mut k: usize = n;
    while k > 0
        invariant
            n == diagonal@.len(),
            valid_bands(diagonal@, off_diagonal@),
            lower == gershgorin_lower(diagonal@, off_diagonal@),
            upper == gershgorin_upper(diagonal@, off_diagonal@),
            -3 * MAX_ENTRY <= lower <= upper <= 3 * MAX_ENTRY,
            k <= n,
            bounds_hold(diagonal@, off_diagonal@, lower_bounds@, upper_bounds@),
            result@.len() == n,
            forall|j: int|
                k <= j < n ==> #[trigger] crossing(
                    diagonal@,
                    off_diagonal@,
                    result@[j] as int,
                    (j + 1) as nat,
                ),
        decreases k,
    {
        k = k - 1;
        let mut lo = start_of_search(diagonal, off_diagonal, &lower_bounds, &upper_bounds, lower, k);
        let mut hi = upper_bounds[k];
        assert(sturm_count(diagonal@, off_diagonal@, hi as int) > k);
        if hi <= lo {
            proof {
                lemma_sturm_count_monotone(diagonal@, off_diagonal@, hi as int, lo as int);
            }
        }
        while hi - lo > 1
            invariant
                n == diagonal@.len(),
                valid_bands(diagonal@, off_diagonal@),
                lower == gershgorin_lower(diagonal@, off_diagonal@),
                upper == gershgorin_upper(diagonal@, off_diagonal@),
                -3 * MAX_ENTRY <= lower <= upper <= 3 * MAX_ENTRY,
                k < n,
                lower <= lo < hi <= upper + 1,
                sturm_count(diagonal@, off_diagonal@, lo as int) <= k,
                sturm_count(diagonal@, off_diagonal@, hi as int) > k,
                bounds_hold(diagonal@, off_diagonal@, lower_bounds@, upper_bounds@),
            decreases hi - lo,
        {
            let mid = lo + (hi - lo) / 2;
            let c = count_below(diagonal, off_diagonal, mid);
            if c < n && lower_bounds[c] < mid {
                lower_bounds.set(c, mid);
            }
            if c >= 1 && upper_bounds[c - 1] > mid {
                upper_bounds.set(c - 1, mid);
            }
            if c > k {
                hi = mid;
            } else {
                lo = mid;
            }
        }
        result.set(k, lo);
    }
    result
}

/// Every eigenvalue of the matrix with the given bands, in ascending order,
/// by the sequential sweep with shared bounds, after checking the bands.
/// Its result equals that of `tridiagonal_eigenvalues`
/// (`lemma_eigenvalues_unique`); that solver is the one to use by default.
pub fn tridiagonal_eigenvalues_shared_bounds(diagonal: &[i64], off_diagonal: &[i64]) -> (r: Result<
    Vec<i64>,
    MatrixError,
>)
    ensures
        r is Ok <==> valid_bands(diagonal@, off_diagonal@),
        r matches Ok(v) ==> ascending_eigenvalues(diagonal@, off_diagonal@, v@),
        r matches Err(e) ==> bands_error(diagonal@, off_diagonal@) == Some(e),
{
    match check_bands(diagonal, off_diagonal) {
        Err(e) => Err(e),
        Ok(()) => Ok(shared_bounds_eigenvalues_of(diagonal, off_diagonal)),
    }
}

} // verus!
