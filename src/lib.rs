//! Eigenvalues of real symmetric tridiagonal matrices by Sturm-sequence
//! bisection, and the Gauss quadrature nodes that they give.
//!
//! Numbers are fixed-point values held as integers: a caller picks a unit
//! (for example `2^-32`) and passes every entry as a whole number of units.
//! Results come back in the same unit, and "one unit" plays the part that
//! machine epsilon plays for floating-point arithmetic.
//!
//! - `bands`: the two bands of a matrix and their validation.
//! - `gershgorin`: an interval that holds every eigenvalue.
//! - `sturm`: the number of eigenvalues below a point.
//! - `bisection`: each eigenvalue by bisection on that count; the default
//!   solver, `tridiagonal_eigenvalues`, runs one bisection per eigenvalue in
//!   parallel.
//! - `shared_bounds`: all eigenvalues in one sequential sweep that reuses
//!   bounds between searches; it returns the same vector.
//! - `matrix`: the bands held together as one checked value.
//! - `jacobi`: Jacobi matrices of the classical orthogonal polynomials,
//!   their zeros, and the Gauss-Chebyshev weights.
//! - `storage`, `quadrature_args`, `adaptive`: small pieces for dense matrices and
//!   the quadrature rules.

pub mod adaptive;
pub mod bands;
pub mod bisection;
pub mod gershgorin;
pub mod jacobi;
pub mod matrix;
pub mod quadrature_args;
pub mod shared_bounds;
pub mod storage;
pub mod sturm;

pub use adaptive::AdaptiveSimpsonError;
pub use bands::{MatrixError, MAX_ENTRY};
pub use bisection::{kth_eigenvalue, tridiagonal_eigenvalues};
pub use gershgorin::gershgorin_bounds;
pub use matrix::TridiagonalSymmetricFloatMatrix;
pub use quadrature_args::check_gauss_rule_args;
pub use shared_bounds::tridiagonal_eigenvalues_shared_bounds;
pub use storage::{transpose_row_major_order, MatrixStorageType};
pub use sturm::count_less_than;
