//! The argument that the entries of a committed matrix multiply to a given value.
use super::hadamard_product as hadamard_argument;
use super::single_value_product as single_value_argument;
use crate::error::{CryptoError, ErrorModel};
use crate::field::{matrix_values, scalar_values, Scalar};
use crate::vector_commitment::pedersen::{commitment_values, CommitKey, CommitKeyModel, Commitment};
use crate::zkp::ArgumentOfKnowledge;
use crate::zkp::transcript::{absorbed_state, label_encoding, write_label, Transcript};
use vstd::prelude::*;

pub mod completeness;
pub mod prover;
pub mod verification;

verus! {

/// The public parameters of the argument: the commit key and the dimensions of the matrix.
pub struct Parameters<'a> {
    pub commit_key: &'a CommitKey,
    pub m: usize,
    pub n: usize,
}

/// The mathematical content of the parameters.
pub struct ParametersModel {
    pub commit_key: CommitKeyModel,
    pub m: nat,
    pub n: nat,
}

impl<'a> View for Parameters<'a> {
    type V = ParametersModel;

    open spec fn view(&self) -> ParametersModel {
        ParametersModel { commit_key: self.commit_key@, m: self.m as nat, n: self.n as nat }
    }
}

impl<'a> Parameters<'a> {
    /// The parameters with the given fields.
    pub fn new(m: usize, n: usize, commit_key: &'a CommitKey) -> (r: Parameters<'a>)
        ensures
            r@ == (ParametersModel { commit_key: commit_key@, m: m as nat, n: n as nat }),
    {
        Parameters { commit_key, m, n }
    }
}

/// The statement: commitments to the rows of a matrix, and the claimed product of its entries.
pub struct Statement<'a> {
    pub commitments_to_a: &'a Vec<Commitment>,
    pub b: Scalar,
}

/// The mathematical content of a statement.
pub struct StatementModel {
    pub commitments_to_a: Seq<nat>,
    pub b: nat,
}

impl<'a> View for Statement<'a> {
    type V = StatementModel;

    open spec fn view(&self) -> StatementModel {
        StatementModel { commitments_to_a: commitment_values(self.commitments_to_a@), b: self.b@ }
    }
}

/// Whether a statement fits the parameters: it has one commitment for each row.
pub open spec fn valid_statement(params: ParametersModel, statement: StatementModel) -> bool {
    statement.commitments_to_a.len() == params.m
}

impl<'a> Statement<'a> {
    /// The statement with the given fields.
    pub fn new(commitments_to_a: &'a Vec<Commitment>, b: Scalar) -> (r: Statement<'a>)
        ensures
            r@ == (StatementModel {
                commitments_to_a: commitment_values(commitments_to_a@),
                b: b@,
            }),
    {
        Statement { commitments_to_a, b }
    }

    /// Checks that the statement fits the parameters.
    pub fn is_valid(&self, parameters: &Parameters) -> (r: Result<(), CryptoError>)
        ensures
            match r {
                Ok(_) => valid_statement(parameters@, self@),
                Err(e) => !valid_statement(parameters@, self@) && e@
                    == ErrorModel::InvalidProductArgumentStatement,
            },
    {
        if self.commitments_to_a.len() != parameters.m {
            return Err(CryptoError::InvalidProductArgumentStatement);
        }
        Ok(())
    }
}

/// The witness: the matrix and the randomness of the commitments to its rows.
pub struct Witness<'a> {
    pub matrix_a: &'a Vec<Vec<Scalar>>,
    pub randoms_for_a_commit: &'a Vec<Scalar>,
}

/// The mathematical content of a witness.
pub struct WitnessModel {
    pub matrix_a: Seq<Seq<nat>>,
    pub randoms_for_a_commit: Seq<nat>,
}

impl<'a> View for Witness<'a> {
    type V = WitnessModel;

    open spec fn view(&self) -> WitnessModel {
        WitnessModel {
            matrix_a: matrix_values(self.matrix_a@),
            randoms_for_a_commit: scalar_values(self.randoms_for_a_commit@),
        }
    }
}

impl<'a> Witness<'a> {
    /// The witness with the given fields.
    pub fn new(matrix_a: &'a Vec<Vec<Scalar>>, randoms_for_a_commit: &'a Vec<Scalar>) -> (r: Witness<
        'a,
    >)
        ensures
            r@ == (WitnessModel {
                matrix_a: matrix_values(matrix_a@),
                randoms_for_a_commit: scalar_values(randoms_for_a_commit@),
            }),
    {
        Witness { matrix_a, randoms_for_a_commit }
    }
}

/// The state of the transcript after the label was absorbed.
pub open spec fn labelled_state(state: Seq<u8>) -> Seq<u8> {
    absorbed_state(state, label_encoding("matrix_elements_product"))
}

/// The parameters of the Hadamard-product argument that the argument reduces to.
pub open spec fn hadamard_parameters(params: ParametersModel) -> hadamard_argument::ParametersModel {
    hadamard_argument::ParametersModel { commit_key: params.commit_key, m: params.m, n: params.n }
}

/// The statement of the Hadamard-product argument that the argument reduces to.
pub open spec fn hadamard_statement(statement: StatementModel, b_commit: nat) -> hadamard_argument::StatementModel {
    hadamard_argument::StatementModel {
        commitment_to_a: statement.commitments_to_a,
        commitment_to_b: b_commit,
    }
}

/// The parameters of the single-value-product argument that the argument reduces to.
pub open spec fn single_value_parameters(params: ParametersModel) -> single_value_argument::ParametersModel {
    single_value_argument::ParametersModel { commit_key: params.commit_key, n: params.n }
}

/// The statement of the single-value-product argument that the argument reduces to.
pub open spec fn single_value_statement(statement: StatementModel, b_commit: nat) -> single_value_argument::StatementModel {
    single_value_argument::StatementModel { a_commit: b_commit, b: statement.b }
}

/// Absorbs the label of the protocol.
pub fn absorb_label(fs_rng: &mut Transcript)
    ensures
        final(fs_rng)@ == labelled_state(old(fs_rng)@),
{
    let mut buf: Vec<u8> = Vec::new();
    write_label(&mut buf, "matrix_elements_product");
    assert(buf@ =~= label_encoding("matrix_elements_product"));
    fs_rng.absorb(buf.as_slice());
}

/// The matrix-elements-product argument as an argument of knowledge.
pub struct ProductArgument<'a> {
    _marker: core::marker::PhantomData<&'a ()>,
}

impl<'a> ArgumentOfKnowledge for ProductArgument<'a> {
    type CommonReferenceString = Parameters<'a>;

    type Statement = Statement<'a>;

    type Witness = Witness<'a>;

    type Proof = verification::Proof;

    open spec fn admissible(common_reference_string: &Parameters<'a>, statement: &Statement<'a>) -> bool {
        2 * common_reference_string.m + 1 <= usize::MAX
    }

    open spec fn verdict(
        common_reference_string: &Parameters<'a>,
        statement: &Statement<'a>,
        proof: &verification::Proof,
        state: Seq<u8>,
    ) -> Result<(), ErrorModel> {
        verification::verification(common_reference_string@, statement@, proof@, state)
    }

    fn prove(
        rng: &mut rand::rngs::StdRng,
        common_reference_string: &Parameters<'a>,
        statement: &Statement<'a>,
        witness: &Witness<'a>,
        fs_rng: &mut Transcript,
    ) -> (r: Result<verification::Proof, CryptoError>)
        ensures
            exists|rho: prover::RandomnessModel| #[trigger]
                prover::run_with(
                    common_reference_string@,
                    statement@,
                    witness@,
                    rho,
                    old(fs_rng)@,
                    prover::proof_outcome(r),
                    final(fs_rng)@,
                ),
    {
        let prover = prover::Prover::new(common_reference_string, statement, witness);
        prover.prove(rng, fs_rng)
    }

    fn verify(
        common_reference_string: &Parameters<'a>,
        statement: &Statement<'a>,
        proof: &verification::Proof,
        fs_rng: &mut Transcript,
    ) -> (r: Result<(), CryptoError>)
        ensures
            final(fs_rng)@ == verification::verified_state(
                common_reference_string@,
                statement@,
                proof@,
                old(fs_rng)@,
            ),
    {
        proof.verify(common_reference_string, statement, fs_rng)
    }
}

} // verus!
