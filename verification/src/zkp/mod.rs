//! Zero-knowledge proofs and arguments of knowledge.
use crate::error::{outcome, CryptoError, ErrorModel};
use crate::zkp::transcript::Transcript;
use vstd::prelude::*;

pub mod arguments;
pub mod proofs;
pub mod transcript;

verus! {

/// A non-interactive argument of knowledge: a prover that turns a witness of a statement
/// into a proof, and a verifier that checks a proof against the statement. Both derive their
/// challenges from a transcript.
pub trait ArgumentOfKnowledge {
    type CommonReferenceString;

    type Statement;

    type Witness;

    type Proof;

    /// Whether the dimensions of the parameters and the statement fit the machine.
    spec fn admissible(
        common_reference_string: &Self::CommonReferenceString,
        statement: &Self::Statement,
    ) -> bool;

    /// What the verifier returns on a proof, for a transcript in the given state.
    spec fn verdict(
        common_reference_string: &Self::CommonReferenceString,
        statement: &Self::Statement,
        proof: &Self::Proof,
        state: Seq<u8>,
    ) -> Result<(), ErrorModel>;

    /// Proves the statement, drawing random values from the random number generator.
    fn prove(
        rng: &mut rand::rngs::StdRng,
        common_reference_string: &Self::CommonReferenceString,
        statement: &Self::Statement,
        witness: &Self::Witness,
        fs_rng: &mut Transcript,
    ) -> (r: Result<Self::Proof, CryptoError>)
        requires
            Self::admissible(common_reference_string, statement),
    ;

    /// Verifies a proof against the statement.
    fn verify(
        common_reference_string: &Self::CommonReferenceString,
        statement: &Self::Statement,
        proof: &Self::Proof,
        fs_rng: &mut Transcript,
    ) -> (r: Result<(), CryptoError>)
        requires
            Self::admissible(common_reference_string, statement),
        ensures
            outcome(r) == Self::verdict(common_reference_string, statement, proof, old(fs_rng)@),
    ;
}

} // verus!
