//! The proof of the matrix-elements-product argument, and its verifier.
use super::{
    absorb_label, hadamard_parameters, hadamard_statement, labelled_state,
    single_value_parameters, single_value_statement, valid_statement, Parameters, ParametersModel,
    Statement, StatementModel,
};
use super::super::hadamard_product as hadamard_argument;
use super::super::single_value_product as single_value_argument;
use crate::error::{outcome, CryptoError, ErrorModel};
use crate::vector_commitment::pedersen::Commitment;
use crate::zkp::transcript::Transcript;
use vstd::prelude::*;

verus! {

/// A proof of the matrix-elements-product argument.
#[derive(Clone, Debug)]
pub struct Proof {
    pub b_commit: Commitment,
    pub hadamard_product_proof: hadamard_argument::verification::Proof,
    pub single_value_proof: single_value_argument::verification::Proof,
}

/// The mathematical content of a proof.
pub struct ProofModel {
    pub b_commit: nat,
    pub hadamard_product_proof: hadamard_argument::verification::ProofModel,
    pub single_value_proof: single_value_argument::verification::ProofModel,
}

impl View for Proof {
    type V = ProofModel;

    open spec fn view(&self) -> ProofModel {
        ProofModel {
            b_commit: self.b_commit@,
            hadamard_product_proof: self.hadamard_product_proof@,
            single_value_proof: self.single_value_proof@,
        }
    }
}

/// What the verifier of the Hadamard-product argument returns in the reduction.
pub open spec fn hadamard_verification(
    params: ParametersModel,
    statement: StatementModel,
    proof: ProofModel,
    state: Seq<u8>,
) -> Result<(), ErrorModel> {
    hadamard_argument::verification::verification(
        hadamard_parameters(params),
        hadamard_statement(statement, proof.b_commit),
        proof.hadamard_product_proof,
        labelled_state(state),
    )
}

/// The state in which the verifier of the Hadamard-product argument leaves the transcript.
pub open spec fn hadamard_state(
    params: ParametersModel,
    statement: StatementModel,
    proof: ProofModel,
    state: Seq<u8>,
) -> Seq<u8> {
    hadamard_argument::verification::verified_state(
        hadamard_parameters(params),
        hadamard_statement(statement, proof.b_commit),
        proof.hadamard_product_proof,
        labelled_state(state),
    )
}

/// What the verifier returns on a proof, for a transcript in the given state: the statement
/// must fit the parameters, and both sub-proofs must verify.
pub open spec fn verification(
    params: ParametersModel,
    statement: StatementModel,
    proof: ProofModel,
    state: Seq<u8>,
) -> Result<(), ErrorModel> {
    if !valid_statement(params, statement) {
        Err(ErrorModel::InvalidProductArgumentStatement)
    } else if hadamard_verification(params, statement, proof, state) is Err {
        hadamard_verification(params, statement, proof, state)
    } else {
        single_value_argument::verification::verification(
            single_value_parameters(params),
            single_value_statement(statement, proof.b_commit),
            proof.single_value_proof,
            hadamard_state(params, statement, proof, state),
        )
    }
}

/// The state in which the verifier leaves the transcript.
pub open spec fn verified_state(
    params: ParametersModel,
    statement: StatementModel,
    proof: ProofModel,
    state: Seq<u8>,
) -> Seq<u8> {
    if !valid_statement(params, statement) {
        state
    } else if hadamard_verification(params, statement, proof, state) is Err {
        hadamard_state(params, statement, proof, state)
    } else {
        single_value_argument::verification::verified_state(
            single_value_parameters(params),
            single_value_statement(statement, proof.b_commit),
            proof.single_value_proof,
            hadamard_state(params, statement, proof, state),
        )
    }
}

impl Proof {
    /// Verifies the proof against the statement.
    pub fn verify(
        &self,
        proof_parameters: &Parameters,
        statement: &Statement,
        fs_rng: &mut Transcript,
    ) -> (r: Result<(), CryptoError>)
        requires
            2 * proof_parameters.m + 1 <= usize::MAX,
        ensures
            outcome(r) == verification(proof_parameters@, statement@, self@, old(fs_rng)@),
            final(fs_rng)@ == verified_state(proof_parameters@, statement@, self@, old(fs_rng)@),
    {
        match statement.is_valid(proof_parameters) {
            Ok(_) => {},
            Err(e) => {
                return Err(e);
            },
        }
        absorb_label(fs_rng);

        // The Hadamard-product argument.
        let hadamard_product_parameters = hadamard_argument::Parameters::new(
            proof_parameters.m,
            proof_parameters.n,
            proof_parameters.commit_key,
        );
        let hadamard_product_statement = hadamard_argument::Statement::new(
            statement.commitments_to_a,
            self.b_commit,
        );
        match self.hadamard_product_proof.verify(
            &hadamard_product_parameters,
            &hadamard_product_statement,
            fs_rng,
        ) {
            Ok(_) => {},
            Err(e) => {
                return Err(e);
            },
        }

        // The single-value-product argument.
        let single_value_product_parameters = single_value_argument::Parameters::new(
            proof_parameters.n,
            proof_parameters.commit_key,
        );
        let single_value_product_statement = single_value_argument::Statement::new(
            &self.b_commit,
            statement.b,
        );
        match self.single_value_proof.verify(
            &single_value_product_parameters,
            &single_value_product_statement,
            fs_rng,
        ) {
            Ok(_) => {},
            Err(e) => {
                return Err(e);
            },
        }

        Ok(())
    }
}

} // verus!
