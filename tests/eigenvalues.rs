use integrator::{
    check_gauss_rule_args, count_less_than, gershgorin_bounds, kth_eigenvalue,
    tridiagonal_eigenvalues, tridiagonal_eigenvalues_shared_bounds, AdaptiveSimpsonError,
    MatrixError, MatrixStorageType, TridiagonalSymmetricFloatMatrix, MAX_ENTRY,
};

const SCALE: f64 = 4294967296.0;

fn to_units(x: f64) -> i64 {
    (x * SCALE).round() as i64
}

fn from_units(v: i64) -> f64 {
    v as f64 / SCALE
}

fn hermite_five() -> (Vec<i64>, Vec<i64>) {
    let diagonal = vec![0i64; 5];
    // off-diagonal entry i is sqrt(i / 2)
    let off_diagonal: Vec<i64> = [0.0, 0.5f64.sqrt(), 1.0, 1.5f64.sqrt(), 2.0f64.sqrt()]
        .iter()
        .map(|x| to_units(*x))
        .collect();
    (diagonal, off_diagonal)
}

fn sample_matrices() -> Vec<(Vec<i64>, Vec<i64>)> {
    vec![
        hermite_five(),
        (vec![1, 2, 3, 4], vec![0, 0, 0, 0]),
        (vec![5], vec![7]),
        (vec![2, -1, 7, 3, 3, 0], vec![9, -4, 2, 0, 5, -6]),
        (vec![100, 100, 100], vec![0, 100, 100]),
        (vec![-1000, 20, 3000, -40], vec![0, 1000, -2000, 3]),
    ]
}

#[test]
fn hermite_degree_five_closed_form() {
    let (diagonal, off_diagonal) = hermite_five();
    let expected = [-2.020183, -0.958572, 0.0, 0.958572, 2.020183];
    let values = tridiagonal_eigenvalues(&diagonal, &off_diagonal).unwrap();
    assert_eq!(values.len(), 5);
    for (v, e) in values.iter().zip(expected.iter()) {
        assert!((from_units(*v) - e).abs() <= 1e-6, "{} vs {}", from_units(*v), e);
    }
}

#[test]
fn diagonal_only_matrix() {
    let values = tridiagonal_eigenvalues(&[1, 2, 3, 4], &[0, 0, 0, 0]).unwrap();
    assert_eq!(values, vec![1, 2, 3, 4]);
}

#[test]
fn test_tdsf_matrix() {
    let n: usize = 1_000;
    let diagonal: Vec<i64> = (1..=n).map(|e| e.pow(2) as i64).collect();
    let offdiagonal: Vec<i64> = (0..n).map(|e| e.pow(4) as i64).collect();
    let matrix = TridiagonalSymmetricFloatMatrix::new(diagonal, offdiagonal).unwrap();

    matrix.eigenvalues();
}

#[test]
fn eigenvalues_lie_within_gershgorin_bounds() {
    for (d, o) in sample_matrices() {
        let (lower, upper) = gershgorin_bounds(&d, &o).unwrap();
        for v in tridiagonal_eigenvalues(&d, &o).unwrap() {
            assert!(lower <= v && v <= upper);
        }
    }
}

#[test]
fn sturm_count_never_decreases() {
    for (d, o) in sample_matrices() {
        let (lower, upper) = gershgorin_bounds(&d, &o).unwrap();
        let step = ((upper - lower) / 97).max(1);
        let mut previous = 0;
        let mut x = lower - 3;
        while x <= upper + 3 {
            let c = count_less_than(&d, &o, x).unwrap();
            assert!(previous <= c);
            previous = c;
            x += step;
        }
    }
}

#[test]
fn sturm_count_is_complete_at_the_bounds() {
    for (d, o) in sample_matrices() {
        let (lower, upper) = gershgorin_bounds(&d, &o).unwrap();
        assert_eq!(count_less_than(&d, &o, lower).unwrap(), 0);
        assert_eq!(count_less_than(&d, &o, upper + 1).unwrap(), d.len());
    }
}

#[test]
fn repeated_solves_agree() {
    for (d, o) in sample_matrices() {
        let first = tridiagonal_eigenvalues(&d, &o).unwrap();
        let second = tridiagonal_eigenvalues(&d, &o).unwrap();
        assert_eq!(first, second);
    }
}

#[test]
fn shared_bounds_sweep_agrees_with_parallel_solver() {
    for (d, o) in sample_matrices() {
        let parallel = tridiagonal_eigenvalues(&d, &o).unwrap();
        let shared = tridiagonal_eigenvalues_shared_bounds(&d, &o).unwrap();
        assert_eq!(parallel, shared);
    }
}

#[test]
fn gershgorin_bounds_of_a_small_matrix() {
    // rows: 2 -/+ (9 + 4), -1 -/+ (4 + 2), 7 -/+ 2
    assert_eq!(gershgorin_bounds(&[2, -1, 7], &[9, -4, 2]), Ok((-11, 15)));
    assert_eq!(gershgorin_bounds(&[5], &[7]), Ok((-2, 12)));
}

#[test]
fn sturm_count_of_a_diagonal_matrix() {
    let d = [1, 2, 3, 4];
    let o = [0, 0, 0, 0];
    assert_eq!(count_less_than(&d, &o, 1), Ok(0));
    assert_eq!(count_less_than(&d, &o, 2), Ok(1));
    assert_eq!(count_less_than(&d, &o, 4), Ok(3));
    assert_eq!(count_less_than(&d, &o, 5), Ok(4));
}

#[test]
fn sturm_count_with_a_zero_pivot() {
    // [[0, 3], [3, 0]] has eigenvalues -3 and 3; at x = 0 the first pivot is
    // zero and the second becomes -9
    let d = [0, 0];
    let o = [0, 3];
    assert_eq!(count_less_than(&d, &o, -3), Ok(0));
    assert_eq!(count_less_than(&d, &o, 0), Ok(1));
    assert_eq!(count_less_than(&d, &o, 3), Ok(1));
    assert_eq!(count_less_than(&d, &o, 4), Ok(2));
}

#[test]
fn kth_eigenvalue_counts_from_the_largest() {
    let d = [1, 2, 3, 4];
    let o = [0, 0, 0, 0];
    assert_eq!(kth_eigenvalue(&d, &o, 0), Ok(4));
    assert_eq!(kth_eigenvalue(&d, &o, 3), Ok(1));
    let (hd, ho) = hermite_five();
    let largest = kth_eigenvalue(&hd, &ho, 0).unwrap();
    assert!((from_units(largest) - 2.020183).abs() <= 1e-6);
}

#[test]
fn two_by_two_eigenvalues_are_exact() {
    assert_eq!(tridiagonal_eigenvalues(&[0, 0], &[0, 3]), Ok(vec![-3, 3]));
    assert_eq!(tridiagonal_eigenvalues_shared_bounds(&[0, 0], &[0, 3]), Ok(vec![-3, 3]));
}

#[test]
fn single_entry_matrix() {
    assert_eq!(tridiagonal_eigenvalues(&[5], &[7]), Ok(vec![5]));
}

#[test]
fn mismatched_bands_are_refused() {
    assert_eq!(tridiagonal_eigenvalues(&[1, 2], &[0]), Err(MatrixError::InvalidDimension));
    assert_eq!(gershgorin_bounds(&[1, 2], &[0]), Err(MatrixError::InvalidDimension));
    assert_eq!(count_less_than(&[1], &[0, 0], 0), Err(MatrixError::InvalidDimension));
    assert_eq!(
        tridiagonal_eigenvalues_shared_bounds(&[1, 2], &[0]),
        Err(MatrixError::InvalidDimension)
    );
}

#[test]
fn empty_matrix_is_refused() {
    assert_eq!(tridiagonal_eigenvalues(&[], &[]), Err(MatrixError::InvalidDimension));
    assert!(matches!(
        TridiagonalSymmetricFloatMatrix::new(vec![], vec![]),
        Err(MatrixError::InvalidDimension)
    ));
}

#[test]
fn entries_beyond_the_range_are_refused() {
    assert_eq!(
        tridiagonal_eigenvalues(&[MAX_ENTRY + 1], &[0]),
        Err(MatrixError::EntryOutOfRange)
    );
    assert_eq!(kth_eigenvalue(&[0, 0], &[0, -MAX_ENTRY - 1], 0), Err(MatrixError::EntryOutOfRange));
    assert_eq!(gershgorin_bounds(&[MAX_ENTRY], &[MAX_ENTRY]), Ok((0, 2 * MAX_ENTRY)));
}

#[test]
fn largest_entries_are_solved() {
    let d = [MAX_ENTRY, -MAX_ENTRY, MAX_ENTRY];
    let o = [MAX_ENTRY, MAX_ENTRY, -MAX_ENTRY];
    let parallel = tridiagonal_eigenvalues(&d, &o).unwrap();
    let shared = tridiagonal_eigenvalues_shared_bounds(&d, &o).unwrap();
    assert_eq!(parallel, shared);
    assert!(parallel.windows(2).all(|w| w[0] <= w[1]));
}

#[test]
fn matrix_methods_agree_with_free_functions() {
    let (d, o) = hermite_five();
    let matrix = TridiagonalSymmetricFloatMatrix::new(d.clone(), o.clone()).unwrap();
    assert_eq!(matrix.eigenvalues(), tridiagonal_eigenvalues(&d, &o).unwrap());
    assert_eq!(matrix.gershgorin_bounds(), gershgorin_bounds(&d, &o).unwrap());
    assert_eq!(matrix.nb_eigenvalues_lt_x(0), count_less_than(&d, &o, 0).unwrap());
    assert_eq!(matrix.kth_eigenvalue(4), kth_eigenvalue(&d, &o, 4).unwrap());
}

#[test]
fn gauss_rule_needs_a_node() {
    assert_eq!(check_gauss_rule_args(0), Err(MatrixError::InvalidDimension));
    assert_eq!(check_gauss_rule_args(3), Ok(()));
}

#[test]
fn storage_index_by_order() {
    assert_eq!(MatrixStorageType::RowMajorOrder.index(1, 2, 3, 4), 6);
    assert_eq!(MatrixStorageType::ColumnMajorOrder.index(1, 2, 3, 4), 7);
}

#[test]
fn adaptive_simpson_error_message() {
    assert!(AdaptiveSimpsonError.message().starts_with("No subinterval of length > min_h"));
}

#[test]
fn transpose_of_a_row_major_matrix() {
    // [[1, 2, 3], [4, 5, 6]] becomes [[1, 4], [2, 5], [3, 6]]
    let data = [1, 2, 3, 4, 5, 6];
    assert_eq!(integrator::transpose_row_major_order(&data, 2, 3), vec![1, 4, 2, 5, 3, 6]);
    let empty: [i64; 0] = [];
    assert!(integrator::transpose_row_major_order(&empty, 0, 4).is_empty());
}
