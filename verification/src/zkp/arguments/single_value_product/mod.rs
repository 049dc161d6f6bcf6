//! The argument that the entries of a committed vector multiply to a given value.
use crate::error::{CryptoError, ErrorModel};
use crate::field::{scalar_values, Scalar};
use crate::vector_commitment::pedersen::{CommitKey, CommitKeyModel, Commitment};
use crate::zkp::ArgumentOfKnowledge;
use crate::zkp::transcript::Transcript;
use vstd::prelude::*;

pub mod completeness;
pub mod prover;
pub mod verification;

verus! {

/// The public parameters of the argument: the commit key and the length of the vector.
pub struct Parameters<'a> {
    pub commit_key: &'a CommitKey,
    pub n: usize,
}

/// The mathematical content of the parameters.
pub struct ParametersModel {
    pub commit_key: CommitKeyModel,
    pub n: nat,
}

impl<'a> View for Parameters<'a> {
    type V = ParametersModel;

    open spec fn view(&self) -> ParametersModel {
        ParametersModel { commit_key: self.commit_key@, n: self.n as nat }
    }
}

impl<'a> Parameters<'a> {
    /// The parameters with the given fields.
    pub fn new(n: usize, commit_key: &'a CommitKey) -> (r: Parameters<'a>)
        ensures
            r@ == (ParametersModel { commit_key: commit_key@, n: n as nat }),
    {
        Parameters { commit_key, n }
    }
}

/// The statement: a commitment to a vector, and the claimed product of its entries.
pub struct Statement<'a> {
    pub a_commit: &'a Commitment,
    pub b: Scalar,
}

/// The mathematical content of a statement.
pub struct StatementModel {
    pub a_commit: nat,
    pub b: nat,
}

impl<'a> View for Statement<'a> {
    type V = StatementModel;

    open spec fn view(&self) -> StatementModel {
        StatementModel { a_commit: self.a_commit@, b: self.b@ }
    }
}

impl<'a> Statement<'a> {
    /// The statement with the given fields.
    pub fn new(a_commit: &'a Commitment, b: Scalar) -> (r: Statement<'a>)
        ensures
            r@ == (StatementModel { a_commit: a_commit@, b: b@ }),
    {
        Statement { a_commit, b }
    }
}

/// The witness: the vector and the randomness of the commitment to it.
pub struct Witness<'a> {
    pub a: &'a Vec<Scalar>,
    pub random_for_a_commit: &'a Scalar,
}

/// The mathematical content of a witness.
pub struct WitnessModel {
    pub a: Seq<nat>,
    pub random_for_a_commit: nat,
}

impl<'a> View for Witness<'a> {
    type V = WitnessModel;

    open spec fn view(&self) -> WitnessModel {
        WitnessModel { a: scalar_values(self.a@), random_for_a_commit: self.random_for_a_commit@ }
    }
}

impl<'a> Witness<'a> {
    /// The witness with the given fields.
    pub fn new(a: &'a Vec<Scalar>, random_for_a_commit: &'a Scalar) -> (r: Witness<'a>)
        ensures
            r@ == (WitnessModel { a: scalar_values(a@), random_for_a_commit: random_for_a_commit@ }),
    {
        Witness { a, random_for_a_commit }
    }
}

/// The label of the protocol in the errors of its verifier.
pub open spec fn label() -> Seq<char> {
    "Single Value Product Argument (5.3)"@
}

/// The single-value-product argument as an argument of knowledge.
pub struct SingleValueProductArgument<'a> {
    _marker: core::marker::PhantomData<&'a ()>,
}

impl<'a> ArgumentOfKnowledge for SingleValueProductArgument<'a> {
    type CommonReferenceString = Parameters<'a>;

    type Statement = Statement<'a>;

    type Witness = Witness<'a>;

    type Proof = verification::Proof;

    open spec fn admissible(common_reference_string: &Parameters<'a>, statement: &Statement<'a>) -> bool {
        true
    }

    open spec fn verdict(
        common_reference_string: &Parameters<'a>,
        statement: &Statement<'a>,
        proof: &verification::Proof,
        state: Seq<u8>,
    ) -> Result<(), ErrorModel> {
        verification::verification(common_reference_string@, statement@, proof@, state)
    }

    fn prove(
        rng: &mut rand::rngs::StdRng,
        common_reference_string: &Parameters<'a>,
        statement: &Statement<'a>,
        witness: &Witness<'a>,
        fs_rng: &mut Transcript,
    ) -> (r: Result<verification::Proof, CryptoError>)
        ensures
            exists|rho: prover::RandomnessModel| #[trigger]
                prover::run_with(
                    common_reference_string@,
                    statement@,
                    witness@,
                    rho,
                    old(fs_rng)@,
                    prover::proof_outcome(r),
                    final(fs_rng)@,
                ),
    {
        let prover = prover::Prover::new(common_reference_string, statement, witness);
        prover.prove(rng, fs_rng)
    }

    fn verify(
        common_reference_string: &Parameters<'a>,
        statement: &Statement<'a>,
        proof: &verification::Proof,
        fs_rng: &mut Transcript,
    ) -> (r: Result<(), CryptoError>)
        ensures
            final(fs_rng)@ == verification::verified_state(
                common_reference_string@,
                statement@,
                proof@,
                old(fs_rng)@,
            ),
    {
        proof.verify(common_reference_string, statement, fs_rng)
    }
}

} // verus!
