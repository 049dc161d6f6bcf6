//! Encryption schemes whose ciphertexts can be added and multiplied by scalars.
pub mod el_gamal;
