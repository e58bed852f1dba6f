//! A symmetric tridiagonal matrix held as its two bands.

use vstd::prelude::*;
use crate::bands::{bands_error, check_bands, valid_bands, MatrixError};
use crate::bisection::{ascending_eigenvalues, crossing, kth_largest};
use crate::gershgorin::{bounds_of, gershgorin_lower, gershgorin_upper};
use crate::sturm::{count_below, sturm_count};
use crate::bisection::eigenvalues_in_parallel;

verus! {

/// A real symmetric tridiagonal matrix: `diagonal[i]` is entry `(i, i)` and
/// `offdiagonal[i]`, for `i >= 1`, couples rows `i - 1` and `i`. Entry
/// `offdiagonal[0]` couples nothing; it widens the Gershgorin interval of
/// row 0 only. Both bands are fixed-point values in a unit of the caller's
/// choice.
pub struct TridiagonalSymmetricFloatMatrix {
    diagonal: Vec<i64>,
    offdiagonal: Vec<i64>,
}

impl TridiagonalSymmetricFloatMatrix {
    #[verifier::type_invariant]
    spec fn well_formed(self) -> bool {
        valid_bands(self.diagonal@, self.offdiagonal@)
    }

    /// The main diagonal.
    pub closed spec fn diagonal_band(&self) -> Seq<i64> {
        self.diagonal@
    }

    /// The off-diagonal band.
    pub closed spec fn off_diagonal_band(&self) -> Seq<i64> {
        self.offdiagonal@
    }

    /// The matrix with the given bands, once they are checked.
    pub fn new(diagonal: Vec<i64>, offdiagonal: Vec<i64>) -> (r: Result<Self, MatrixError>)
        ensures
            r is Ok <==> valid_bands(diagonal@, offdiagonal@),
            r matches Ok(m) ==> m.diagonal_band() == diagonal@ && m.off_diagonal_band()
                == offdiagonal@,
            r matches Err(e) ==> bands_error(diagonal@, offdiagonal@) == Some(e),
    {
        match check_bands(diagonal.as_slice(), offdiagonal.as_slice()) {
            Err(e) => Err(e),
            Ok(()) => Ok(TridiagonalSymmetricFloatMatrix { diagonal, offdiagonal }),
        }
    }

    /// Every eigenvalue in ascending order, each by its own bisection, in
    /// parallel.
    pub fn eigenvalues(&self) -> (r: Vec<i64>)
        ensures
            ascending_eigenvalues(self.diagonal_band(), self.off_diagonal_band(), r@),
    {
        proof {
            use_type_invariant(self);
        }
        eigenvalues_in_parallel(self.diagonal.as_slice(), self.offdiagonal.as_slice())
    }

    /// The `k`-th largest eigenvalue, `k = 0` being the largest.
    pub fn kth_eigenvalue(&self, k: usize) -> (r: i64)
        requires
            k < self.diagonal_band().len(),
        ensures
            crossing(
                self.diagonal_band(),
                self.off_diagonal_band(),
                r as int,
                (self.diagonal_band().len() - k) as nat,
            ),
    {
        proof {
            use_type_invariant(self);
        }
        kth_largest(self.diagonal.as_slice(), self.offdiagonal.as_slice(), k)
    }

    /// The Gershgorin interval `(lower, upper)` that holds every eigenvalue.
    pub fn gershgorin_bounds(&self) -> (r: (i64, i64))
        ensures
            r.0 == gershgorin_lower(self.diagonal_band(), self.off_diagonal_band()),
            r.1 == gershgorin_upper(self.diagonal_band(), self.off_diagonal_band()),
    {
        proof {
            use_type_invariant(self);
        }
        bounds_of(self.diagonal.as_slice(), self.offdiagonal.as_slice())
    }

    /// The number of eigenvalues strictly below `x`.
    pub fn nb_eigenvalues_lt_x(&self, x: i64) -> (r: usize)
        ensures
            r == sturm_count(self.diagonal_band(), self.off_diagonal_band(), x as int),
    {
        proof {
            use_type_invariant(self);
        }
        count_below(self.diagonal.as_slice(), self.offdiagonal.as_slice(), x)
    }
}

} // verus!
