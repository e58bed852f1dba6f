//! Jacobi matrices of the classical orthogonal polynomials, whose
//! eigenvalues are the polynomials' zeros, the nodes of Gauss quadrature.
//!
//! The matrices are built in units of `1 / SCALE`, and so are the zeros and
//! weights that come back.

use vstd::prelude::*;
use crate::bands::{abs, valid_bands, MatrixError, MAX_ENTRY};
use crate::bisection::{ascending_eigenvalues, eigenvalues_in_parallel};

verus! {

/// Units per one: numbers here are multiples of `2^-32`.
pub const SCALE: i64 = 0x1_0000_0000;

/// `pi` in units of `1 / SCALE`, rounded to the nearest unit.
pub const PI_SCALED: i64 = 13493037705;

/// The largest degree whose Jacobi matrix stays within `MAX_ENTRY` for
/// every family: `2^27`.
pub const MAX_DEGREE: usize = 0x800_0000;

/// A family of classical orthogonal polynomials.
#[derive(Debug, Clone, Copy, PartialEq, Eq, Structural)]
pub enum PolynomialFamily {
    /// Hermite polynomials, weight `e^(-x^2)` on the whole line.
    Hermite,
    /// Laguerre polynomials, weight `e^(-x)` on the positive half-line.
    Laguerre,
    /// Chebyshev polynomials of the first kind, weight `1 / sqrt(1 - x^2)`.
    ChebyshevFirstKind,
    /// Chebyshev polynomials of the second kind, weight `sqrt(1 - x^2)`.
    ChebyshevSecondKind,
}

/// `r` is the integer square root of `v`.
pub open spec fn is_floor_sqrt(v: int, r: int) -> bool {
    0 <= r && r * r <= v < (r + 1) * (r + 1)
}

/// The integer square root of `v`.
pub open spec fn floor_sqrt(v: nat) -> int {
    choose|r: int| is_floor_sqrt(v as int, r)
}

proof fn lemma_floor_sqrt_unique(v: int, r: int, s: int)
    requires
        is_floor_sqrt(v, r),
        is_floor_sqrt(v, s),
    ensures
        r == s,
{
    if r < s {
        assert((r + 1) * (r + 1) <= s * s) by (nonlinear_arith)
            requires
                0 <= r < s,
        ;
    } else if s < r {
        assert((s + 1) * (s + 1) <= r * r) by (nonlinear_arith)
            requires
                0 <= s < r,
        ;
    }
}

/// The integer square root of `v < 2^124`, by bisection.
fn isqrt(v: u128) -> (r: u64)
    requires
        v < 0x1000_0000_0000_0000_0000_0000_0000_0000,
    ensures
        is_floor_sqrt(v as int, r as int),
        r == floor_sqrt(v as nat),
{
    let mut lo: u64 = 0;
    let mut hi: u64 = 0x4000_0000_0000_0000;
    assert(hi as int * hi as int == 0x1000_0000_0000_0000_0000_0000_0000_0000);
    while hi - lo > 1
        invariant
            lo < hi <= 0x4000_0000_0000_0000,
            lo as int * lo as int <= v,
            v < hi as int * hi as int,
        decreases hi - lo,
    {
        let mid = lo + (hi - lo) / 2;
        assert(mid as int * mid as int <= 0x1000_0000_0000_0000_0000_0000_0000_0000) by (
        nonlinear_arith)
            requires
                mid <= 0x4000_0000_0000_0000,
        ;
        if (mid as u128) * (mid as u128) <= v {
            lo = mid;
        } else {
            hi = mid;
        }
    }
    proof {
        assert(hi == lo + 1);
        assert(is_floor_sqrt(v as int, lo as int));
        let s = floor_sqrt(v as nat);
        assert(is_floor_sqrt(v as int, s));
        lemma_floor_sqrt_unique(v as int, lo as int, s);
    }
    lo
}

/// Entry `i` of the diagonal of the family's Jacobi matrix.
pub open spec fn jacobi_center(family: PolynomialFamily, i: int) -> int {
    match family {
        PolynomialFamily::Laguerre => (2 * i + 1) * SCALE,
        _ => 0,
    }
}

/// Entry `i` of the off-diagonal of the family's Jacobi matrix, which
/// couples rows `i - 1` and `i`; entry 0 is zero.
pub open spec fn jacobi_coupling(family: PolynomialFamily, i: int) -> int {
    if i == 0 {
        0
    } else {
        match family {
            PolynomialFamily::Hermite => floor_sqrt((i * (SCALE * SCALE / 2)) as nat),
            PolynomialFamily::Laguerre => i * SCALE,
            PolynomialFamily::ChebyshevFirstKind => if i == 1 {
                floor_sqrt((SCALE * SCALE / 2) as nat)
            } else {
                SCALE / 2
            },
            PolynomialFamily::ChebyshevSecondKind => SCALE / 2,
        }
    }
}

/// The diagonal of the family's Jacobi matrix of the given degree.
pub open spec fn jacobi_diagonal(family: PolynomialFamily, degree: nat) -> Seq<i64> {
    Seq::new(degree, |i: int| jacobi_center(family, i) as i64)
}

/// The off-diagonal of the family's Jacobi matrix of the given degree.
pub open spec fn jacobi_off_diagonal(family: PolynomialFamily, degree: nat) -> Seq<i64> {
    Seq::new(degree, |i: int| jacobi_coupling(family, i) as i64)
}

fn coupling(family: PolynomialFamily, i: usize) -> (r: i64)
    requires
        i < MAX_DEGREE,
    ensures
        r == jacobi_coupling(family, i as int),
        0 <= r <= MAX_ENTRY,
{
    if i == 0 {
        return 0;
    }
    match family {
        PolynomialFamily::Hermite => {
            let v = (i as u128) * 0x8000_0000_0000_0000u128;
            let r = isqrt(v);
            assert(r < 0x100_0000_0000_0000) by (nonlinear_arith)
                requires
                    r as int * r as int <= v,
                    v < 0x1_0000_0000_0000_0000_0000_0000_0000,
            ;
            r as i64
        },
        PolynomialFamily::Laguerre => (i as i64) * SCALE,
        PolynomialFamily::ChebyshevFirstKind => {
            if i == 1 {
                let r = isqrt(0x8000_0000_0000_0000u128);
                assert(r < 0x1_0000_0000) by (nonlinear_arith)
                    requires
                        r as int * r as int <= 0x8000_0000_0000_0000,
                ;
                r as i64
            } else {
                SCALE / 2
            }
        },
        PolynomialFamily::ChebyshevSecondKind => SCALE / 2,
    }
}

/// The two bands of the family's Jacobi matrix of the given degree.
fn jacobi_bands(family: PolynomialFamily, degree: usize) -> (r: (Vec<i64>, Vec<i64>))
    requires
        1 <= degree <= MAX_DEGREE,
    ensures
        r.0@ == jacobi_diagonal(family, degree as nat),
        r.1@ == jacobi_off_diagonal(family, degree as nat),
        valid_bands(r.0@, r.1@),
{
    let mut diagonal: Vec<i64> = Vec::new();
    let mut off_diagonal: Vec<i64> = Vec::new();
    let mut i: usize = 0;
    while i < degree
        invariant
            i <= degree <= MAX_DEGREE,
            diagonal@.len() == i,
            off_diagonal@.len() == i,
            forall|j: int|
                0 <= j < i ==> #[trigger] diagonal@[j] == jacobi_center(family, j) as i64
                    && -MAX_ENTRY <= diagonal@[j] <= MAX_ENTRY,
            forall|j: int|
                0 <= j < i ==> #[trigger] off_diagonal@[j] == jacobi_coupling(family, j) as i64
                    && -MAX_ENTRY <= off_diagonal@[j] <= MAX_ENTRY,
        decreases degree - i,
    {
        let center: i64 = match family {
            PolynomialFamily::Laguerre => (2 * (i as i64) + 1) * SCALE,
            _ => 0,
        };
        diagonal.push(center);
        off_diagonal.push(coupling(family, i));
        i = i + 1;
    }
    assert(diagonal@ =~= jacobi_diagonal(family, degree as nat));
    assert(off_diagonal@ =~= jacobi_off_diagonal(family, degree as nat));
    (diagonal, off_diagonal)
}

/// `v` lists the zeros of the family's polynomial of the given degree in
/// ascending order: the eigenvalues of its Jacobi matrix, or nothing for
/// degree 0.
pub open spec fn zeros_of(family: PolynomialFamily, degree: nat, v: Seq<i64>) -> bool {
    if degree == 0 {
        v.len() == 0
    } else {
        ascending_eigenvalues(jacobi_diagonal(family, degree), jacobi_off_diagonal(family, degree), v)
    }
}

/// The zeros of the family's polynomial of the given degree, in ascending
/// order, as the eigenvalues of its Jacobi matrix; none for degree 0.
pub fn family_zeros(family: PolynomialFamily, degree: usize) -> (r: Result<Vec<i64>, MatrixError>)
    ensures
        r is Ok <==> degree <= MAX_DEGREE,
        r matches Err(e) ==> e == MatrixError::EntryOutOfRange,
        r matches Ok(v) ==> zeros_of(family, degree as nat, v@),
{
    if degree > MAX_DEGREE {
        return Err(MatrixError::EntryOutOfRange);
    }
    if degree == 0 {
        return Ok(Vec::new());
    }
    let (diagonal, off_diagonal) = jacobi_bands(family, degree);
    Ok(eigenvalues_in_parallel(diagonal.as_slice(), off_diagonal.as_slice()))
}


/// The weight of every node of the `n`-node Gauss-Chebyshev rule of the
/// first kind: `pi / n`.
pub open spec fn first_kind_weight(n: int) -> int {
    PI_SCALED as int / n
}

/// The weight of the node `x` of the `n`-node Gauss-Chebyshev rule of the
/// second kind: `pi / (n + 1) * sin^2(theta)` with `x = cos(theta)`, that is
/// `pi / (n + 1) * (1 - x^2)`; zero outside `(-1, 1)`, where no node lies.
pub open spec fn second_kind_weight(n: int, x: int) -> int {
    if abs(x) >= SCALE {
        0
    } else {
        (PI_SCALED * (SCALE * SCALE - x * x) / (SCALE * SCALE)) / (n + 1)
    }
}

/// The nodes and weights of the `n`-node Gauss-Chebyshev rule of the first
/// kind.
pub fn roots_first_kind_chebyshev(n: usize) -> (r: Result<(Vec<i64>, Vec<i64>), MatrixError>)
    ensures
        r is Ok <==> n <= MAX_DEGREE,
        r matches Err(e) ==> e == MatrixError::EntryOutOfRange,
        r matches Ok(p) ==> {
            &&& zeros_of(PolynomialFamily::ChebyshevFirstKind, n as nat, p.0@)
            &&& p.1@.len() == n
            &&& forall|j: int| 0 <= j < n ==> #[trigger] p.1@[j] == first_kind_weight(n as int)
        },
{
    let zeros = match family_zeros(PolynomialFamily::ChebyshevFirstKind, n) {
        Err(e) => {
            return Err(e);
        },
        Ok(z) => z,
    };
    let mut weights: Vec<i64> = Vec::new();
    let mut j: usize = 0;
    while j < n
        invariant
            j <= n <= MAX_DEGREE,
            weights@.len() == j,
            forall|i: int| 0 <= i < j ==> #[trigger] weights@[i] == first_kind_weight(n as int),
        decreases n - j,
    {
        weights.push(PI_SCALED / (n as i64));
        j = j + 1;
    }
    Ok((zeros, weights))
}

fn second_kind_weight_at(n: usize, x: i64) -> (r: i64)
    requires
        n <= MAX_DEGREE,
    ensures
        r == second_kind_weight(n as int, x as int),
{
    if x <= -SCALE || x >= SCALE {
        return 0;
    }
    let s2: i128 = (SCALE as i128) * (SCALE as i128);
    assert(0 <= x * x < SCALE * SCALE) by (nonlinear_arith)
        requires
            -SCALE < x < SCALE,
    ;
    let xx: i128 = (x as i128) * (x as i128);
    let scaled: i128 = (PI_SCALED as i128) * (s2 - xx);
    assert(0 <= scaled <= PI_SCALED * s2) by (nonlinear_arith)
        requires
            0 < s2 - xx <= s2,
            scaled == PI_SCALED * (s2 - xx),
    ;
    let q = scaled / s2;
    assert(q <= PI_SCALED) by {
        vstd::arithmetic::div_mod::lemma_div_is_ordered(scaled as int, PI_SCALED * s2, s2 as int);
        vstd::arithmetic::div_mod::lemma_div_multiples_vanish(PI_SCALED as int, s2 as int);
    }
    proof {
        vstd::arithmetic::div_mod::lemma_div_pos_is_pos(scaled as int, s2 as int);
    }
    let w = q / ((n as i128) + 1);
    assert(w <= q) by {
        vstd::arithmetic::div_mod::lemma_div_is_ordered_by_denominator(q as int, 1, (n + 1) as int);
    }
    proof {
        vstd::arithmetic::div_mod::lemma_div_pos_is_pos(q as int, (n + 1) as int);
    }
    w as i64
}

/// The nodes and weights of the `n`-node Gauss-Chebyshev rule of the second
/// kind.
pub fn roots_second_kind_chebyshev(n: usize) -> (r: Result<(Vec<i64>, Vec<i64>), MatrixError>)
    ensures
        r is Ok <==> n <= MAX_DEGREE,
        r matches Err(e) ==> e == MatrixError::EntryOutOfRange,
        r matches Ok(p) ==> {
            &&& zeros_of(PolynomialFamily::ChebyshevSecondKind, n as nat, p.0@)
            &&& p.1@.len() == n
            &&& forall|j: int|
                0 <= j < n ==> #[trigger] p.1@[j] == second_kind_weight(n as int, p.0@[j] as int)
        },
{
    let zeros = match family_zeros(PolynomialFamily::ChebyshevSecondKind, n) {
        Err(e) => {
            return Err(e);
        },
        Ok(z) => z,
    };
    assert(zeros@.len() == n);
    let mut weights: Vec<i64> = Vec::new();
    let mut j: usize = 0;
    while j < n
        invariant
            j <= n <= MAX_DEGREE,
            zeros@.len() == n,
            weights@.len() == j,
            forall|i: int|
                0 <= i < j ==> #[trigger] weights@[i] == second_kind_weight(
                    n as int,
                    zeros@[i] as int,
                ),
        decreases n - j,
    {
        weights.push(second_kind_weight_at(n, zeros[j]));
        j = j + 1;
    }
    Ok((zeros, weights))
}

} // verus!
