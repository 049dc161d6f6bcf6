//! Verifiable unpredictable functions: signatures that hold a token which is unique for each
//! key and message.
use crate::error::CryptoError;
use vstd::prelude::*;

pub mod fedl;

verus! {

/// A signature scheme whose signatures hold a unique token.
pub trait VerifiableUnpredictableFunction {
    type Parameters;

    type PublicKey;

    type SecretKey;

    type Signature;

    type UniqueToken;

    type Message;

    /// Generates a public key and a secret key.
    fn keygen(pp: &Self::Parameters, rng: &mut rand::rngs::StdRng) -> (r: Result<
        (Self::PublicKey, Self::SecretKey),
        CryptoError,
    >);

    /// Signs a message.
    fn sign(
        pp: &Self::Parameters,
        rng: &mut rand::rngs::StdRng,
        keypair: (&Self::PublicKey, &Self::SecretKey),
        message: Self::Message,
    ) -> (r: Result<Self::Signature, CryptoError>);

    /// Extracts the unique token from a signature.
    fn extract_token(signature: &Self::Signature) -> (r: Result<Self::UniqueToken, CryptoError>);

    /// Verifies a signature.
    fn verify(
        pp: &Self::Parameters,
        pk: &Self::PublicKey,
        message: Self::Message,
        signature: &Self::Signature,
    ) -> (r: Result<(), CryptoError>);
}

} // verus!
