//! How the entries of a dense matrix are laid out in one vector.

use vstd::prelude::*;

verus! {

/// The order in which a dense matrix stores its entries.
#[derive(Debug, Clone, Copy, PartialEq, Eq, Structural)]
pub enum MatrixStorageType {
    /// Row after row: entry `(i, j)` sits at `i * ncols + j`.
    RowMajorOrder,
    /// Column after column: entry `(i, j)` sits at `j * nrows + i`.
    ColumnMajorOrder,
}

impl MatrixStorageType {
    /// Where entry `(i, j)` of an `nrows`-by-`ncols` matrix sits.
    pub open spec fn position(self, i: int, j: int, nrows: int, ncols: int) -> int {
        match self {
            MatrixStorageType::RowMajorOrder => i * ncols + j,
            MatrixStorageType::ColumnMajorOrder => j * nrows + i,
        }
    }

    /// The index of entry `(i, j)` in the storage vector, which is always
    /// within the `nrows * ncols` entries.
    pub fn index(&self, i: usize, j: usize, nrows: usize, ncols: usize) -> (r: usize)
        requires
            i < nrows,
            j < ncols,
            nrows * ncols <= usize::MAX,
        ensures
            r == self.position(i as int, j as int, nrows as int, ncols as int),
            r < nrows * ncols,
    {
        match self {
            MatrixStorageType::RowMajorOrder => {
                assert(i * ncols + j < nrows * ncols) by (nonlinear_arith)
                    requires
                        i < nrows,
                        j < ncols,
                ;
                i * ncols + j
            },
            MatrixStorageType::ColumnMajorOrder => {
                assert(j * nrows + i < nrows * ncols) by (nonlinear_arith)
                    requires
                        i < nrows,
                        j < ncols,
                ;
                j * nrows + i
            },
        }
    }
}


/// The entries of an `nrows`-by-`ncols` matrix stored row after row,
/// rearranged so that they lie column after column: the row-major storage of
/// the transpose. The same rearrangement, with `nrows` and `ncols` swapped,
/// transposes a matrix stored column after column.
pub fn transpose_row_major_order<T: Copy>(data: &[T], nrows: usize, ncols: usize) -> (r: Vec<T>)
    requires
        data@.len() == nrows * ncols,
    ensures
        r@.len() == data@.len(),
        forall|i: int, j: int|
            0 <= i < nrows && 0 <= j < ncols ==> r@[MatrixStorageType::ColumnMajorOrder.position(
                i,
                j,
                nrows as int,
                ncols as int,
            )] == data@[MatrixStorageType::RowMajorOrder.position(
                i,
                j,
                nrows as int,
                ncols as int,
            )],
{
    let len = data.len();
    let mut r: Vec<T> = Vec::new();
    let mut j: usize = 0;
    while j < ncols
        invariant
            len == data@.len(),
            data@.len() == nrows * ncols,
            j <= ncols,
            r@.len() == j * nrows,
            forall|ii: int, jj: int|
                0 <= ii < nrows && 0 <= jj < j ==> r@[#[trigger] MatrixStorageType::ColumnMajorOrder.position(
                    ii,
                    jj,
                    nrows as int,
                    ncols as int,
                )] == data@[MatrixStorageType::RowMajorOrder.position(
                    ii,
                    jj,
                    nrows as int,
                    ncols as int,
                )],
        decreases ncols - j,
    {
        let mut i: usize = 0;
        while i < nrows
            invariant
                len == data@.len(),
                data@.len() == nrows * ncols,
                j < ncols,
                i <= nrows,
                r@.len() == j * nrows + i,
                forall|ii: int, jj: int|
                    0 <= ii < nrows && 0 <= jj < j ==> r@[#[trigger] MatrixStorageType::ColumnMajorOrder.position(
                        ii,
                        jj,
                        nrows as int,
                        ncols as int,
                    )] == data@[MatrixStorageType::RowMajorOrder.position(
                        ii,
                        jj,
                        nrows as int,
                        ncols as int,
                    )],
                forall|ii: int|
                    0 <= ii < i ==> r@[#[trigger] MatrixStorageType::ColumnMajorOrder.position(
                        ii,
                        j as int,
                        nrows as int,
                        ncols as int,
                    )] == data@[MatrixStorageType::RowMajorOrder.position(
                        ii,
                        j as int,
                        nrows as int,
                        ncols as int,
                    )],
            decreases nrows - i,
        {
            assert(i * ncols <= i * ncols + j < nrows * ncols) by (nonlinear_arith)
                requires
                    i < nrows,
                    j < ncols,
            ;
            proof {
                assert forall|ii: int, jj: int|
                    0 <= ii < nrows && 0 <= jj < j implies MatrixStorageType::ColumnMajorOrder.position(
                    ii,
                    jj,
                    nrows as int,
                    ncols as int,
                ) < j * nrows + i by {
                    assert(jj * nrows + ii < j * nrows) by (nonlinear_arith)
                        requires
                            0 <= ii < nrows,
                            0 <= jj < j,
                    ;
                }
            }
            let ghost before = r@;
            r.push(data[i * ncols + j]);
            assert forall|ii: int, jj: int|
                0 <= ii < nrows && 0 <= jj < j implies r@[#[trigger] MatrixStorageType::ColumnMajorOrder.position(
                ii,
                jj,
                nrows as int,
                ncols as int,
            )] == data@[MatrixStorageType::RowMajorOrder.position(
                ii,
                jj,
                nrows as int,
                ncols as int,
            )] by {
                assert(before[MatrixStorageType::ColumnMajorOrder.position(
                    ii,
                    jj,
                    nrows as int,
                    ncols as int,
                )] == data@[MatrixStorageType::RowMajorOrder.position(
                    ii,
                    jj,
                    nrows as int,
                    ncols as int,
                )]);
            }
            i = i + 1;
        }
        assert(j * nrows + nrows == (j + 1) * nrows) by (nonlinear_arith);
        j = j + 1;
    }
    assert(ncols * nrows == nrows * ncols) by (nonlinear_arith);
    r
}

} // verus!
