//! Permutations, random vectors and vector arithmetic.
pub mod permutation;
pub mod random;
pub mod vector_arithmetic;
