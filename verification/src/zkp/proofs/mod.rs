//! Proofs of knowledge of discrete logarithms.
pub mod chaum_pedersen_dl_equality;
pub mod schnorr_identification;
