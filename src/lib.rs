//! Dense row-major matrices over a generic element type, with shape-checked
//! arithmetic and element-wise activation functions.

pub mod activation;
pub mod arith;
pub mod laws;
pub mod matrix;
pub mod numbers;
pub mod random;
pub mod vector;

pub use matrix::Matrix;
pub use matrix::MatrixError;
