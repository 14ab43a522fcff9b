//! A plaintext constraint simulator: polynomial gates over a prime field,
//! evaluated row by row against a grid of assigned cells.

pub mod expr;
pub mod field;
pub mod prover;
pub mod range_check;
pub mod system;
pub mod table;

