//! The two bands of a symmetric tridiagonal matrix and their validation.

use vstd::prelude::*;

verus! {

/// Largest magnitude accepted for an entry of either band, `2^60`.
///
/// With this bound every intermediate value of the Gershgorin bounds and of
/// the bisection fits in an `i64`, and every pivot of the Sturm recurrence
/// fits in an `i128`.
pub const MAX_ENTRY: i64 = 0x1000_0000_0000_0000;

/// Why a pair of bands was refused.
#[derive(Debug, Clone, Copy, PartialEq, Eq, Structural)]
pub enum MatrixError {
    /// The bands differ in length, or the matrix is empty.
    InvalidDimension,
    /// An entry lies outside `[-MAX_ENTRY, MAX_ENTRY]`.
    EntryOutOfRange,
}

/// Absolute value over the integers.
pub open spec fn abs(v: int) -> int {
    if v < 0 {
        -v
    } else {
        v
    }
}

/// Both bands have the same length, at least one.
pub open spec fn valid_dimension(diagonal: Seq<i64>, off_diagonal: Seq<i64>) -> bool {
    diagonal.len() == off_diagonal.len() && diagonal.len() >= 1
}

/// Every entry of `s` has magnitude at most `MAX_ENTRY`.
pub open spec fn entries_in_range(s: Seq<i64>) -> bool {
    forall|i: int| 0 <= i < s.len() ==> -MAX_ENTRY <= #[trigger] s[i] <= MAX_ENTRY
}

/// The bands describe a matrix that the solver accepts.
pub open spec fn valid_bands(diagonal: Seq<i64>, off_diagonal: Seq<i64>) -> bool {
    &&& valid_dimension(diagonal, off_diagonal)
    &&& entries_in_range(diagonal)
    &&& entries_in_range(off_diagonal)
}

/// The error, if any, that the bands call for.
pub open spec fn bands_error(diagonal: Seq<i64>, off_diagonal: Seq<i64>) -> Option<MatrixError> {
    if !valid_dimension(diagonal, off_diagonal) {
        Some(MatrixError::InvalidDimension)
    } else if !(entries_in_range(diagonal) && entries_in_range(off_diagonal)) {
        Some(MatrixError::EntryOutOfRange)
    } else {
        None
    }
}

fn all_in_range(s: &[i64]) -> (r: bool)
    ensures
        r == entries_in_range(s@),
{
    let mut i: usize = 0;
    while i < s.len()
        invariant
            i <= s@.len(),
            forall|j: int| 0 <= j < i ==> -MAX_ENTRY <= #[trigger] s@[j] <= MAX_ENTRY,
        decreases s@.len() - i,
    {
        if s[i] < -MAX_ENTRY || s[i] > MAX_ENTRY {
            assert(!(-MAX_ENTRY <= s@[i as int] <= MAX_ENTRY));
            return false;
        }
        i = i + 1;
    }
    true
}

/// Checks the bands before any computation: the dimension first, then the
/// range of the entries.
pub fn check_bands(diagonal: &[i64], off_diagonal: &[i64]) -> (r: Result<(), MatrixError>)
    ensures
        r is Ok <==> valid_bands(diagonal@, off_diagonal@),
        r matches Err(e) ==> bands_error(diagonal@, off_diagonal@) == Some(e),
{
    if diagonal.len() != off_diagonal.len() || diagonal.len() == 0 {
        return Err(MatrixError::InvalidDimension);
    }
    if !all_in_range(diagonal) || !all_in_range(off_diagonal) {
        return Err(MatrixError::EntryOutOfRange);
    }
    Ok(())
}

} // verus!
