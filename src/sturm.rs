//! Counting eigenvalues below a point with the Sturm-sequence recurrence.
//!
//! For the matrix `T` with diagonal `a` and off-diagonal `b`, the pivots of
//! the LDL^T factorisation of `T - x I` are
//!
//! ```text
//! q_0 = a_0 - x
//! q_i = a_i - x - b_i^2 / q_{i-1}
//! ```
//!
//! and the number of negative pivots is the number of eigenvalues below `x`.
//! Division truncates toward zero, and a zero pivot counts as the smallest
//! positive value, one unit, so that it contributes `b_i^2`. With that choice
//! the count never decreases as `x` grows (`lemma_sturm_count_monotone`).

use vstd::prelude::*;
use crate::bands::{abs, bands_error, check_bands, valid_bands, MatrixError, MAX_ENTRY};
use crate::gershgorin::{
    gershgorin_lower, gershgorin_upper, lemma_bounds_enclose_rows, row_lower, row_upper,
};

verus! {

/// What pivot `q` of the previous row takes away from the next pivot.
pub open spec fn pivot_correction(b: int, q: int) -> int {
    if q == 0 {
        b * b
    } else if q > 0 {
        (b * b) / q
    } else {
        -((b * b) / (-q))
    }
}

/// The pivot of row `i` of `T - x I`.
pub open spec fn pivot(diagonal: Seq<i64>, off_diagonal: Seq<i64>, x: int, i: nat) -> int
    decreases i,
{
    if i == 0 {
        diagonal[0] - x
    } else {
        diagonal[i as int] - x - pivot_correction(
            off_diagonal[i as int] as int,
            pivot(diagonal, off_diagonal, x, (i - 1) as nat),
        )
    }
}

/// The number of negative pivots among rows `0..len`.
pub open spec fn negative_pivots(
    diagonal: Seq<i64>,
    off_diagonal: Seq<i64>,
    x: int,
    len: nat,
) -> nat
    decreases len,
{
    if len == 0 {
        0
    } else {
        negative_pivots(diagonal, off_diagonal, x, (len - 1) as nat) + if pivot(
            diagonal,
            off_diagonal,
            x,
            (len - 1) as nat,
        ) < 0 {
            1nat
        } else {
            0nat
        }
    }
}

/// The Sturm count at `x`: the number of eigenvalues strictly below `x`.
pub open spec fn sturm_count(diagonal: Seq<i64>, off_diagonal: Seq<i64>, x: int) -> nat {
    negative_pivots(diagonal, off_diagonal, x, diagonal.len())
}

proof fn lemma_square_bound(b: int)
    requires
        -MAX_ENTRY <= b <= MAX_ENTRY,
    ensures
        0 <= b * b <= MAX_ENTRY * MAX_ENTRY,
{
    assert(0 <= b * b <= MAX_ENTRY * MAX_ENTRY) by (nonlinear_arith)
        requires
            -MAX_ENTRY <= b <= MAX_ENTRY,
            MAX_ENTRY > 0,
    ;
}

/// A correction never exceeds `b^2` in magnitude.
proof fn lemma_correction_bound(b: int, q: int)
    ensures
        abs(pivot_correction(b, q)) <= b * b,
{
    let bb = b * b;
    assert(b * b >= 0) by (nonlinear_arith);
    if q > 0 {
        vstd::arithmetic::div_mod::lemma_div_pos_is_pos(bb, q);
        vstd::arithmetic::div_mod::lemma_div_is_ordered_by_denominator(bb, 1, q);
    } else if q < 0 {
        vstd::arithmetic::div_mod::lemma_div_pos_is_pos(bb, -q);
        vstd::arithmetic::div_mod::lemma_div_is_ordered_by_denominator(bb, 1, -q);
    }
}

/// The order in which a pivot moves as `x` grows, for a fixed count of
/// earlier negative pivots: first through the negative values, from `-1`
/// downward, then through the non-negative ones, from large to zero.
spec fn pivot_phase_le(q1: int, q2: int) -> bool {
    (q1 < 0 && q2 >= 0) || ((q1 < 0) == (q2 < 0) && q1 >= q2)
}

/// The position of a prefix of the recurrence: how many of its pivots are
/// negative, then where its last pivot stands.
spec fn phase_le(c1: nat, q1: int, c2: nat, q2: int) -> bool {
    c1 < c2 || (c1 == c2 && pivot_phase_le(q1, q2))
}

proof fn lemma_correction_follows_phase(b: int, q1: int, q2: int)
    requires
        pivot_phase_le(q1, q2),
    ensures
        pivot_correction(b, q1) <= pivot_correction(b, q2),
{
    let bb = b * b;
    assert(b * b >= 0) by (nonlinear_arith);
    if q1 < 0 && q2 >= 0 {
        vstd::arithmetic::div_mod::lemma_div_pos_is_pos(bb, -q1);
        if q2 > 0 {
            vstd::arithmetic::div_mod::lemma_div_pos_is_pos(bb, q2);
        }
    } else if q1 < 0 {
        vstd::arithmetic::div_mod::lemma_div_is_ordered_by_denominator(bb, -q1, -q2);
    } else if q2 == 0 {
        if q1 > 0 {
            vstd::arithmetic::div_mod::lemma_div_is_ordered_by_denominator(bb, 1, q1);
        }
    } else {
        vstd::arithmetic::div_mod::lemma_div_is_ordered_by_denominator(bb, q2, q1);
    }
}

proof fn lemma_phase_step(c: nat, piv1: int, piv2: int)
    requires
        piv2 <= piv1,
    ensures
        phase_le(
            c + if piv1 < 0 {
                1nat
            } else {
                0nat
            },
            piv1,
            c + if piv2 < 0 {
                1nat
            } else {
                0nat
            },
            piv2,
        ),
{
}

/// Raising `x` never moves any prefix of the recurrence backward in phase.
proof fn lemma_phase_monotone(
    diagonal: Seq<i64>,
    off_diagonal: Seq<i64>,
    x1: int,
    x2: int,
    i: nat,
)
    requires
        x1 <= x2,
    ensures
        phase_le(
            negative_pivots(diagonal, off_diagonal, x1, i + 1),
            pivot(diagonal, off_diagonal, x1, i),
            negative_pivots(diagonal, off_diagonal, x2, i + 1),
            pivot(diagonal, off_diagonal, x2, i),
        ),
    decreases i,
{
    let piv1 = pivot(diagonal, off_diagonal, x1, i);
    let piv2 = pivot(diagonal, off_diagonal, x2, i);
    let c1 = negative_pivots(diagonal, off_diagonal, x1, i);
    let c2 = negative_pivots(diagonal, off_diagonal, x2, i);
    assert(negative_pivots(diagonal, off_diagonal, x1, i + 1) == c1 + if piv1 < 0 {
        1nat
    } else {
        0nat
    });
    assert(negative_pivots(diagonal, off_diagonal, x2, i + 1) == c2 + if piv2 < 0 {
        1nat
    } else {
        0nat
    });
    if i == 0 {
        lemma_phase_step(0, piv1, piv2);
    } else {
        let j = (i - 1) as nat;
        lemma_phase_monotone(diagonal, off_diagonal, x1, x2, j);
        let q1 = pivot(diagonal, off_diagonal, x1, j);
        let q2 = pivot(diagonal, off_diagonal, x2, j);
        assert(j + 1 == i);
        if c1 == c2 {
            lemma_correction_follows_phase(off_diagonal[i as int] as int, q1, q2);
            lemma_phase_step(c1, piv1, piv2);
        }
    }
}

/// The Sturm count never decreases as `x` grows: for `x1 <= x2`, fewer or
/// as many eigenvalues lie below `x1` as below `x2`.
pub proof fn lemma_sturm_count_monotone(
    diagonal: Seq<i64>,
    off_diagonal: Seq<i64>,
    x1: int,
    x2: int,
)
    requires
        x1 <= x2,
    ensures
        sturm_count(diagonal, off_diagonal, x1) <= sturm_count(diagonal, off_diagonal, x2),
{
    if diagonal.len() > 0 {
        lemma_phase_monotone(diagonal, off_diagonal, x1, x2, (diagonal.len() - 1) as nat);
    }
}


/// Magnitude below which every pivot stays when `x` is an `i64`:
/// `|a_i - x| < 2^64` and the correction is at most `MAX_ENTRY^2 = 2^120`.
spec fn pivot_limit() -> int {
    0x1_0000_0000_0000_0000 + MAX_ENTRY * MAX_ENTRY
}

/// `pivot_correction` for an off-diagonal entry and a pivot in range.
fn correction(b: i64, q: i128) -> (r: i128)
    requires
        -MAX_ENTRY <= b <= MAX_ENTRY,
        abs(q as int) <= pivot_limit(),
    ensures
        r == pivot_correction(b as int, q as int),
        abs(r as int) <= MAX_ENTRY * MAX_ENTRY,
{
    proof {
        lemma_square_bound(b as int);
        lemma_correction_bound(b as int, q as int);
    }
    let bb: i128 = (b as i128) * (b as i128);
    if q == 0 {
        bb
    } else if q > 0 {
        bb / q
    } else {
        -(bb / (-q))
    }
}

/// The Sturm count at `x` of bands that are known to be valid.
pub(crate) fn count_below(diagonal: &[i64], off_diagonal: &[i64], x: i64) -> (r: usize)
    requires
        valid_bands(diagonal@, off_diagonal@),
    ensures
        r == sturm_count(diagonal@, off_diagonal@, x as int),
        r <= diagonal@.len(),
{
    let n = diagonal.len();
    assert(-MAX_ENTRY <= diagonal@[0] <= MAX_ENTRY);
    let mut q: i128 = (diagonal[0] as i128) - (x as i128);
    let mut count: usize = if q < 0 {
        1
    } else {
        0
    };
    assert(negative_pivots(diagonal@, off_diagonal@, x as int, 0) == 0);
    let mut i: usize = 1;
    while i < n
        invariant
            n == diagonal@.len(),
            valid_bands(diagonal@, off_diagonal@),
            1 <= i <= n,
            q == pivot(diagonal@, off_diagonal@, x as int, (i - 1) as nat),
            count == negative_pivots(diagonal@, off_diagonal@, x as int, i as nat),
            count <= i,
            abs(q as int) <= pivot_limit(),
        decreases n - i,
    {
        assert(-MAX_ENTRY <= diagonal@[i as int] <= MAX_ENTRY);
        assert(-MAX_ENTRY <= off_diagonal@[i as int] <= MAX_ENTRY);
        let c = correction(off_diagonal[i], q);
        q = (diagonal[i] as i128) - (x as i128) - c;
        if q < 0 {
            count = count + 1;
        }
        i = i + 1;
    }
    count
}

/// The number of eigenvalues strictly below `x` of the matrix with the given
/// bands, after checking the bands.
pub fn count_less_than(diagonal: &[i64], off_diagonal: &[i64], x: i64) -> (r: Result<
    usize,
    MatrixError,
>)
    ensures
        r is Ok <==> valid_bands(diagonal@, off_diagonal@),
        r matches Ok(c) ==> c == sturm_count(diagonal@, off_diagonal@, x as int) && c
            <= diagonal@.len(),
        r matches Err(e) ==> bands_error(diagonal@, off_diagonal@) == Some(e),
{
    match check_bands(diagonal, off_diagonal) {
        Err(e) => Err(e),
        Ok(()) => Ok(count_below(diagonal, off_diagonal, x)),
    }
}

/// `b^2 / q <= |b|` once `q >= |b|` and `q > 0`.
proof fn lemma_square_over_larger(b: int, q: int)
    requires
        q > 0,
        q >= abs(b),
    ensures
        (b * b) / q <= abs(b),
{
    if b != 0 {
        let m = abs(b);
        assert(b * b == m * m) by (nonlinear_arith)
            requires
                m == abs(b),
        ;
        assert(m * m >= 0) by (nonlinear_arith);
        vstd::arithmetic::div_mod::lemma_div_is_ordered_by_denominator(m * m, m, q);
        vstd::arithmetic::div_mod::lemma_div_multiples_vanish(m, m);
    } else {
        assert(b * b == 0);
    }
}

/// The off-diagonal entry that couples row `i` to the next, or zero for the
/// last row.
spec fn next_coupling(off_diagonal: Seq<i64>, i: int) -> int {
    if i + 1 < off_diagonal.len() {
        abs(off_diagonal[i + 1] as int)
    } else {
        0
    }
}

proof fn lemma_no_negative_pivot_below(
    diagonal: Seq<i64>,
    off_diagonal: Seq<i64>,
    x: int,
    i: nat,
)
    requires
        valid_bands(diagonal, off_diagonal),
        i < diagonal.len(),
        forall|j: int| 0 <= j < diagonal.len() ==> x <= #[trigger] row_lower(diagonal, off_diagonal, j),
    ensures
        pivot(diagonal, off_diagonal, x, i) >= next_coupling(off_diagonal, i as int),
        negative_pivots(diagonal, off_diagonal, x, i + 1) == 0,
    decreases i,
{
    assert(x <= row_lower(diagonal, off_diagonal, i as int));
    assert(negative_pivots(diagonal, off_diagonal, x, i + 1) == negative_pivots(
        diagonal,
        off_diagonal,
        x,
        i,
    ) + if pivot(diagonal, off_diagonal, x, i) < 0 {
        1nat
    } else {
        0nat
    });
    if i > 0 {
        let j = (i - 1) as nat;
        lemma_no_negative_pivot_below(diagonal, off_diagonal, x, j);
        let q = pivot(diagonal, off_diagonal, x, j);
        let b = off_diagonal[i as int] as int;
        assert(j + 1 == i);
        assert(q >= abs(b));
        if q > 0 {
            lemma_square_over_larger(b, q);
            assert(b * b >= 0) by (nonlinear_arith);
            vstd::arithmetic::div_mod::lemma_div_pos_is_pos(b * b, q);
        } else {
            assert(b == 0);
        }
    }
}

proof fn lemma_all_pivots_negative_above(
    diagonal: Seq<i64>,
    off_diagonal: Seq<i64>,
    x: int,
    i: nat,
)
    requires
        valid_bands(diagonal, off_diagonal),
        i < diagonal.len(),
        forall|j: int| 0 <= j < diagonal.len() ==> x > #[trigger] row_upper(diagonal, off_diagonal, j),
    ensures
        pivot(diagonal, off_diagonal, x, i) < -next_coupling(off_diagonal, i as int),
        negative_pivots(diagonal, off_diagonal, x, i + 1) == i + 1,
    decreases i,
{
    assert(x > row_upper(diagonal, off_diagonal, i as int));
    assert(negative_pivots(diagonal, off_diagonal, x, i + 1) == negative_pivots(
        diagonal,
        off_diagonal,
        x,
        i,
    ) + if pivot(diagonal, off_diagonal, x, i) < 0 {
        1nat
    } else {
        0nat
    });
    if i > 0 {
        let j = (i - 1) as nat;
        lemma_all_pivots_negative_above(diagonal, off_diagonal, x, j);
        let q = pivot(diagonal, off_diagonal, x, j);
        let b = off_diagonal[i as int] as int;
        assert(j + 1 == i);
        assert(-q > abs(b));
        lemma_square_over_larger(b, -q);
        assert(b * b >= 0) by (nonlinear_arith);
        vstd::arithmetic::div_mod::lemma_div_pos_is_pos(b * b, -q);
    }
}

/// No eigenvalue lies below the lower Gershgorin bound, and all of them lie
/// below the upper bound widened by one unit.
pub proof fn lemma_sturm_count_at_bounds(diagonal: Seq<i64>, off_diagonal: Seq<i64>)
    requires
        valid_bands(diagonal, off_diagonal),
    ensures
        sturm_count(diagonal, off_diagonal, gershgorin_lower(diagonal, off_diagonal)) == 0,
        sturm_count(diagonal, off_diagonal, gershgorin_upper(diagonal, off_diagonal) + 1)
            == diagonal.len(),
{
    let n = diagonal.len();
    lemma_bounds_enclose_rows(diagonal, off_diagonal, n);
    let last = (n - 1) as nat;
    assert(last + 1 == n);
    lemma_no_negative_pivot_below(
        diagonal,
        off_diagonal,
        gershgorin_lower(diagonal, off_diagonal),
        last,
    );
    lemma_all_pivots_negative_above(
        diagonal,
        off_diagonal,
        gershgorin_upper(diagonal, off_diagonal) + 1,
        last,
    );
}

} // verus!
