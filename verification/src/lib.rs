//! A small linear-algebra library for matrices of machine integers:
//! construction, indexed access, elementwise arithmetic, multiplication,
//! transposition, submatrix extraction, determinants by cofactor
//! expansion, inverses by the adjugate method, and a plain-text
//! rendering. Every operation carries a contract over a mathematical
//! model of the matrix (a sequence of rows of unbounded integers), and
//! the classical algebraic laws are proved in `laws`.
//!
//! The library is named after Arthur Cayley, who introduced matrix
//! multiplication.

pub mod grid;
pub mod laws;
pub mod matrix;
pub mod text;

pub use matrix::Matrix;
