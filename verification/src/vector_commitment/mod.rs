//! Commitment schemes for vectors of scalars.
pub mod pedersen;
