//! Checks on the arguments of the Gauss quadrature rules.

use vstd::prelude::*;
use crate::bands::MatrixError;

verus! {

/// A Gauss rule with `n` nodes needs the eigenvalues of an `n`-by-`n`
/// Jacobi matrix, so `n` must not be zero.
pub fn check_gauss_rule_args(n: usize) -> (r: Result<(), MatrixError>)
    ensures
        r is Ok <==> n > 0,
        r matches Err(e) ==> e == MatrixError::InvalidDimension,
{
    if n == 0 {
        Err(MatrixError::InvalidDimension)
    } else {
        Ok(())
    }
}

} // verus!
