//! An interval that holds every eigenvalue, from Gershgorin's theorem.
//!
//! Row `i` contributes the interval `[a_i - r_i, a_i + r_i]` with
//! `r_i = |b_i| + |b_{i+1}|` (the last row has `|b_{n-1}|` alone); the
//! bounds are the least lower end and the greatest upper end over all rows.

use vstd::prelude::*;
use crate::bands::{abs, bands_error, check_bands, valid_bands, MatrixError, MAX_ENTRY};

verus! {

/// The Gershgorin radius of row `i`.
pub open spec fn row_radius(off_diagonal: Seq<i64>, i: int) -> int {
    abs(off_diagonal[i] as int) + if i + 1 < off_diagonal.len() {
        abs(off_diagonal[i + 1] as int)
    } else {
        0
    }
}

/// The lower end of the interval of row `i`.
pub open spec fn row_lower(diagonal: Seq<i64>, off_diagonal: Seq<i64>, i: int) -> int {
    diagonal[i] - row_radius(off_diagonal, i)
}

/// The upper end of the interval of row `i`.
pub open spec fn row_upper(diagonal: Seq<i64>, off_diagonal: Seq<i64>, i: int) -> int {
    diagonal[i] + row_radius(off_diagonal, i)
}

/// The least lower end over rows `0..len` (`len >= 1`).
pub open spec fn lower_over(diagonal: Seq<i64>, off_diagonal: Seq<i64>, len: nat) -> int
    decreases len,
{
    if len <= 1 {
        row_lower(diagonal, off_diagonal, 0)
    } else {
        let rest = lower_over(diagonal, off_diagonal, (len - 1) as nat);
        let row = row_lower(diagonal, off_diagonal, len - 1);
        if row < rest {
            row
        } else {
            rest
        }
    }
}

/// The greatest upper end over rows `0..len` (`len >= 1`).
pub open spec fn upper_over(diagonal: Seq<i64>, off_diagonal: Seq<i64>, len: nat) -> int
    decreases len,
{
    if len <= 1 {
        row_upper(diagonal, off_diagonal, 0)
    } else {
        let rest = upper_over(diagonal, off_diagonal, (len - 1) as nat);
        let row = row_upper(diagonal, off_diagonal, len - 1);
        if row > rest {
            row
        } else {
            rest
        }
    }
}

/// The lower Gershgorin bound of the matrix.
pub open spec fn gershgorin_lower(diagonal: Seq<i64>, off_diagonal: Seq<i64>) -> int {
    lower_over(diagonal, off_diagonal, diagonal.len())
}

/// The upper Gershgorin bound of the matrix.
pub open spec fn gershgorin_upper(diagonal: Seq<i64>, off_diagonal: Seq<i64>) -> int {
    upper_over(diagonal, off_diagonal, diagonal.len())
}

/// The bound over `len` rows lies below or at each of those rows' lower
/// ends, and above or at each of their upper ends.
pub proof fn lemma_bounds_enclose_rows(
    diagonal: Seq<i64>,
    off_diagonal: Seq<i64>,
    len: nat,
)
    requires
        1 <= len,
    ensures
        forall|i: int|
            0 <= i < len ==> lower_over(diagonal, off_diagonal, len) <= #[trigger] row_lower(
                diagonal,
                off_diagonal,
                i,
            ),
        forall|i: int|
            0 <= i < len ==> upper_over(diagonal, off_diagonal, len) >= #[trigger] row_upper(
                diagonal,
                off_diagonal,
                i,
            ),
    decreases len,
{
    if len > 1 {
        lemma_bounds_enclose_rows(diagonal, off_diagonal, (len - 1) as nat);
    }
}

/// Each bound is the end of some row's interval, so it stays within
/// `3 * MAX_ENTRY` of zero.
proof fn lemma_bounds_in_range(diagonal: Seq<i64>, off_diagonal: Seq<i64>, len: nat)
    requires
        valid_bands(diagonal, off_diagonal),
        1 <= len <= diagonal.len(),
    ensures
        -3 * MAX_ENTRY <= lower_over(diagonal, off_diagonal, len) <= 3 * MAX_ENTRY,
        -3 * MAX_ENTRY <= upper_over(diagonal, off_diagonal, len) <= 3 * MAX_ENTRY,
    decreases len,
{
    assert(-MAX_ENTRY <= diagonal[len - 1] <= MAX_ENTRY);
    assert(-MAX_ENTRY <= off_diagonal[len - 1] <= MAX_ENTRY);
    if len < off_diagonal.len() {
        assert(-MAX_ENTRY <= off_diagonal[len as int] <= MAX_ENTRY);
    }
    assert(-MAX_ENTRY <= diagonal[0] <= MAX_ENTRY);
    assert(-MAX_ENTRY <= off_diagonal[0] <= MAX_ENTRY);
    if 1 < off_diagonal.len() {
        assert(-MAX_ENTRY <= off_diagonal[1] <= MAX_ENTRY);
    }
    if len > 1 {
        lemma_bounds_in_range(diagonal, off_diagonal, (len - 1) as nat);
    }
}

fn abs_entry(v: i64) -> (r: i64)
    requires
        -MAX_ENTRY <= v <= MAX_ENTRY,
    ensures
        r == abs(v as int),
{
    if v < 0 {
        -v
    } else {
        v
    }
}

/// The interval of row `i`.
fn row_bounds(diagonal: &[i64], off_diagonal: &[i64], i: usize) -> (r: (i64, i64))
    requires
        valid_bands(diagonal@, off_diagonal@),
        i < diagonal@.len(),
    ensures
        r.0 == row_lower(diagonal@, off_diagonal@, i as int),
        r.1 == row_upper(diagonal@, off_diagonal@, i as int),
{
    assert(-MAX_ENTRY <= diagonal@[i as int] <= MAX_ENTRY);
    assert(-MAX_ENTRY <= off_diagonal@[i as int] <= MAX_ENTRY);
    let next: i64 = if i < off_diagonal.len() - 1 {
        assert(-MAX_ENTRY <= off_diagonal@[i + 1] <= MAX_ENTRY);
        abs_entry(off_diagonal[i + 1])
    } else {
        0
    };
    let radius = abs_entry(off_diagonal[i]) + next;
    (diagonal[i] - radius, diagonal[i] + radius)
}

/// The Gershgorin bounds of bands that are known to be valid.
pub(crate) fn bounds_of(diagonal: &[i64], off_diagonal: &[i64]) -> (r: (i64, i64))
    requires
        valid_bands(diagonal@, off_diagonal@),
    ensures
        r.0 == gershgorin_lower(diagonal@, off_diagonal@),
        r.1 == gershgorin_upper(diagonal@, off_diagonal@),
        -3 * MAX_ENTRY <= r.0 <= r.1 <= 3 * MAX_ENTRY,
{
    let n = diagonal.len();
    let (mut lower, mut upper) = row_bounds(diagonal, off_diagonal, 0);
    let mut i: usize = 1;
    while i < n
        invariant
            n == diagonal@.len(),
            valid_bands(diagonal@, off_diagonal@),
            1 <= i <= n,
            lower == lower_over(diagonal@, off_diagonal@, i as nat),
            upper == upper_over(diagonal@, off_diagonal@, i as nat),
        decreases n - i,
    {
        let (row_low, row_high) = row_bounds(diagonal, off_diagonal, i);
        if row_low < lower {
            lower = row_low;
        }
        if row_high > upper {
            upper = row_high;
        }
        i = i + 1;
        proof {
            lemma_bounds_in_range(diagonal@, off_diagonal@, i as nat);
        }
    }
    proof {
        lemma_bounds_in_range(diagonal@, off_diagonal@, n as nat);
        lemma_bounds_enclose_rows(diagonal@, off_diagonal@, n as nat);
        assert(row_lower(diagonal@, off_diagonal@, 0) <= row_upper(diagonal@, off_diagonal@, 0));
    }
    (lower, upper)
}

/// The interval `[lower, upper]` that holds every eigenvalue of the matrix
/// with the given bands, after checking the bands.
pub fn gershgorin_bounds(diagonal: &[i64], off_diagonal: &[i64]) -> (r: Result<
    (i64, i64),
    MatrixError,
>)
    ensures
        r is Ok <==> valid_bands(diagonal@, off_diagonal@),
        r matches Ok(b) ==> b.0 == gershgorin_lower(diagonal@, off_diagonal@) && b.1
            == gershgorin_upper(diagonal@, off_diagonal@),
        r matches Err(e) ==> bands_error(diagonal@, off_diagonal@) == Some(e),
{
    match check_bands(diagonal, off_diagonal) {
        Err(e) => Err(e),
        Ok(()) => Ok(bounds_of(diagonal, off_diagonal)),
    }
}

} // verus!
