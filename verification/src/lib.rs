//! Zero-knowledge arguments for the correct shuffle of homomorphic ciphertexts.
//!
//! The group is modelled as the integers modulo its prime order: a point stands for its
//! exponent with respect to the fixed generator, so that point addition is addition modulo
//! the order and scalar multiplication is multiplication modulo the order.
pub mod error;
pub mod field;
pub mod group;
pub mod homomorphic_encryption;
pub mod summation;
pub mod utils;
pub mod vector_commitment;
pub mod vuf;
pub mod zkp;
