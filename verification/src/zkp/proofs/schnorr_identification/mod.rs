//! Schnorr's proof of knowledge of a discrete logarithm.
use crate::error::{CryptoError, ErrorModel};
use crate::field::Scalar;
use crate::group::Point;
use crate::zkp::ArgumentOfKnowledge;
use crate::zkp::transcript::Transcript;
use vstd::prelude::*;

pub mod completeness;
pub mod prover;
pub mod verification;

verus! {

/// The proof system: the statement `P = x * g` for public points `g` and `P`, witnessed by
/// the scalar `x`.
pub struct SchnorrIdentification {}

/// The public parameter: the point `g`.
pub type Parameters = Point;

/// The statement: the point `P`.
pub type Statement = Point;

/// The witness: the scalar `x`.
pub type Witness = Scalar;

/// The label of the protocol in the errors of its verifier.
pub open spec fn label() -> Seq<char> {
    "Schnorr Identification"@
}

impl ArgumentOfKnowledge for SchnorrIdentification {
    type CommonReferenceString = Parameters;

    type Statement = Statement;

    type Witness = Witness;

    type Proof = verification::Proof;

    open spec fn admissible(common_reference_string: &Parameters, statement: &Statement) -> bool {
        true
    }

    open spec fn verdict(
        common_reference_string: &Parameters,
        statement: &Statement,
        proof: &verification::Proof,
        state: Seq<u8>,
    ) -> Result<(), ErrorModel> {
        verification::verification(common_reference_string@, statement@, proof@, state)
    }

    fn prove(
        rng: &mut rand::rngs::StdRng,
        common_reference_string: &Parameters,
        statement: &Statement,
        witness: &Witness,
        fs_rng: &mut Transcript,
    ) -> (r: Result<verification::Proof, CryptoError>)
        ensures
            exists|k: nat| #[trigger]
                prover::run_with(
                    common_reference_string@,
                    statement@,
                    witness@,
                    k,
                    old(fs_rng)@,
                    r,
                    final(fs_rng)@,
                ),
    {
        prover::Prover::create_proof(rng, common_reference_string, statement, witness, fs_rng)
    }

    fn verify(
        common_reference_string: &Parameters,
        statement: &Statement,
        proof: &verification::Proof,
        fs_rng: &mut Transcript,
    ) -> (r: Result<(), CryptoError>)
        ensures
            final(fs_rng)@ == verification::verified_state(
                common_reference_string@,
                statement@,
                proof@,
                old(fs_rng)@,
            ),
    {
        proof.verify(common_reference_string, statement, fs_rng)
    }
}

} // verus!
