use std::f64::consts::FRAC_1_SQRT_2;

use integrator::jacobi::{family_zeros, PolynomialFamily, MAX_DEGREE, SCALE};
use integrator::MatrixError;

const H1_ZEROS: [f64; 1] = [0.000000];
const H2_ZEROS: [f64; 2] = [-0.707107, 0.707107];
const H3_ZEROS: [f64; 3] = [-1.224745, -0.000000, 1.224745];
const H4_ZEROS: [f64; 4] = [-1.650680, -0.524648, 0.524648, 1.650680];
const H5_ZEROS: [f64; 5] = [-2.020183, -0.958572, 0.000000, 0.958572, 2.020183];

// computed using scipy roots_laguerre
const FIRST_100_LAGUERRE_ROOTS: [f64; 100] = [
        374.984113,
        355.261312,
        339.435102,
        325.691263,
        313.329534,
        301.985855,
        291.440134,
        281.546328,
        272.20117,
        263.328168,
        254.868629,
        246.776241,
        239.01363,
        231.550068,
        224.359895,
        217.421393,
        210.715973,
        204.22756,
        197.942133,
        191.847369,
        185.93236,
        180.187391,
        174.603761,
        169.17364,
        163.889946,
        158.746249,
        153.736688,
        148.855901,
        144.09897,
        139.461365,
        134.938905,
        130.527723,
        126.224231,
        122.025092,
        117.927199,
        113.927651,
        110.023736,
        106.212911,
        102.492795,
        98.861146,
        95.3158573,
        91.8549433,
        88.4765308,
        85.1788512,
        81.9602322,
        78.8190913,
        75.7539295,
        72.7633254,
        69.8459306,
        67.0004645,
        64.2257101,
        61.5205103,
        58.883764,
        56.314423,
        53.8114889,
        51.3740103,
        49.0010802,
        46.6918335,
        44.4454451,
        42.2611275,
        40.1381291,
        38.0757324,
        36.0732524,
        34.1300351,
        32.245456,
        30.4189188,
        28.6498542,
        26.9377187,
        25.2819939,
        23.6821848,
        22.1378194,
        20.648448,
        19.2136416,
        17.8329919,
        16.5061105,
        15.2326276,
        14.0121922,
        12.8444712,
        11.7291485,
        10.6659251,
        9.65451824,
        8.69466111,
        7.78610238,
        6.92860583,
        6.12195003,
        5.36592799,
        4.66034684,
        4.00502758,
        3.39980483,
        2.84452654,
        2.33905385,
        1.88326083,
        1.47703433,
        1.12027384,
        0.812891284,
        0.554810938,
        0.345969181,
        0.186314102,
        0.075803612,
        0.014386147,
    ];

fn zeros(family: PolynomialFamily, n: usize) -> Vec<f64> {
    family_zeros(family, n)
        .unwrap()
        .iter()
        .map(|v| *v as f64 / SCALE as f64)
        .collect()
}

fn all_close(values: &[f64], expected: &[f64], epsilon: f64) -> bool {
    values.len() == expected.len()
        && values
            .iter()
            .zip(expected)
            .all(|(value, test_value)| (value - test_value).abs() <= epsilon)
}

#[test]
fn hermite_test_hermite_zeros() {
    const EPSILON: f64 = 10e-7;
    assert!(all_close(&zeros(PolynomialFamily::Hermite, 1), &H1_ZEROS, EPSILON));
    assert!(all_close(&zeros(PolynomialFamily::Hermite, 2), &H2_ZEROS, EPSILON));
    assert!(all_close(&zeros(PolynomialFamily::Hermite, 3), &H3_ZEROS, EPSILON));
    assert!(all_close(&zeros(PolynomialFamily::Hermite, 4), &H4_ZEROS, EPSILON));
    assert!(all_close(&zeros(PolynomialFamily::Hermite, 5), &H5_ZEROS, EPSILON));
}

#[test]
fn test_laguerre_polynomial_zeros() {
    const EPSILON: f64 = 10e-5;

    let n = 100;
    let lag_zeros = zeros(PolynomialFamily::Laguerre, n);
    assert_eq!(lag_zeros.len(), n);

    // the constants run from the largest zero down
    FIRST_100_LAGUERRE_ROOTS
        .iter()
        .zip(lag_zeros.iter().rev())
        .for_each(|(test_zero, zero)| assert!((test_zero - zero).abs() < EPSILON))
}

#[test]
fn degree_zero_has_no_zeros() {
    assert!(family_zeros(PolynomialFamily::Laguerre, 0).unwrap().is_empty());
    assert!(family_zeros(PolynomialFamily::Hermite, 0).unwrap().is_empty());
}

#[test]
fn degree_above_the_limit_is_refused() {
    assert_eq!(
        family_zeros(PolynomialFamily::Laguerre, MAX_DEGREE + 1),
        Err(MatrixError::EntryOutOfRange)
    );
}

#[test]
fn laguerre_degree_one_zero_is_one() {
    // L_1(x) = 1 - x: the 1-by-1 Jacobi matrix is [1]
    assert_eq!(family_zeros(PolynomialFamily::Laguerre, 1).unwrap(), vec![SCALE]);
}

#[test]
fn hermite_degree_two_zeros_are_plus_minus_root_half() {
    // the coupling is floor(sqrt(2^63)) = 3037000499 units, and the
    // eigenvalues of [[0, b], [b, 0]] are -b and b
    let z = family_zeros(PolynomialFamily::Hermite, 2).unwrap();
    assert_eq!(z, vec![-3037000499, 3037000499]);
}
