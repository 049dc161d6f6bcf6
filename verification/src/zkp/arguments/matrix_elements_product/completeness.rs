//! What the verifier of the matrix-elements-product argument does with the proofs of the
//! prover.
use super::{
    hadamard_parameters, hadamard_statement, labelled_state, single_value_parameters,
    single_value_statement, valid_statement, ParametersModel, StatementModel, WitnessModel,
};
use super::prover::{
    early_failure, hadamard_proving, hadamard_witness, product_commitment, product_of_rows,
    proved_state, proving, single_value_proving, single_value_witness, RandomnessModel,
};
use super::super::hadamard_product as hadamard_argument;
use super::super::single_value_product as single_value_argument;
use super::verification::{hadamard_verification, verification, verified_state, ProofModel};
use crate::error::ErrorModel;
use crate::vector_commitment::pedersen::commitments_to_rows;
use crate::zkp::arguments::has_shape;
use vstd::prelude::*;

verus! {

/// Whether the witness and the random values have the dimensions of the parameters, which
/// must be at least two by two.
pub open spec fn valid_dimensions(
    params: ParametersModel,
    witness: WitnessModel,
    rho: RandomnessModel,
) -> bool {
    &&& params.m >= 2
    &&& params.n >= 2
    &&& has_shape(witness.matrix_a, params.m, params.n)
    &&& witness.randoms_for_a_commit.len() == params.m
    &&& rho.hadamard.s.len() == params.m - 2
    &&& rho.hadamard.zero.a_0.len() == params.n
    &&& rho.hadamard.zero.b_m.len() == params.n
    &&& rho.hadamard.zero.t.len() == 2 * params.m + 1
    &&& rho.single_value.d.len() == params.n
    &&& rho.single_value.delta.len() == params.n - 2
}

/// The product of all entries of the matrix: the product of the entries of the entry-wise
/// product of its rows.
pub open spec fn product_of_entries(witness: WitnessModel, n: nat) -> nat {
    single_value_argument::prover::running_product(product_of_rows(witness), (n - 1) as nat)
}

/// The verifier accepts the proof of an honest prover: when the statement holds the
/// commitments to the rows of the matrix of the witness and the product of its entries, and
/// the dimensions fit, then for every choice of random values and every state of the
/// transcript the prover returns a proof, this proof verifies, and the verifier leaves the
/// transcript in the state in which the prover left it.
pub proof fn lemma_honest_proof_is_accepted(
    params: ParametersModel,
    statement: StatementModel,
    witness: WitnessModel,
    rho: RandomnessModel,
    state: Seq<u8>,
)
    requires
        valid_dimensions(params, witness, rho),
        params.n <= params.commit_key.g.len(),
        statement.commitments_to_a == commitments_to_rows(
            params.commit_key,
            witness.matrix_a,
            witness.randoms_for_a_commit,
        ),
        statement.b == product_of_entries(witness, params.n),
    ensures
        proving(params, statement, witness, rho, state) is Ok,
        verification(
            params,
            statement,
            proving(params, statement, witness, rho, state)->Ok_0,
            state,
        ) is Ok,
        verified_state(
            params,
            statement,
            proving(params, statement, witness, rho, state)->Ok_0,
            state,
        ) == proved_state(params, statement, witness, rho, state),
{
    let b_commit = product_commitment(params, witness, rho);
    assert(valid_statement(params, statement));
    assert(early_failure(params, statement, witness) is None);
    hadamard_argument::completeness::lemma_partial_product_length(
        witness.matrix_a,
        params.m,
        params.n,
        (params.m - 1) as nat,
    );
    hadamard_argument::completeness::lemma_honest_proof_is_accepted(
        hadamard_parameters(params),
        hadamard_statement(statement, b_commit),
        hadamard_witness(witness, rho),
        rho.hadamard,
        labelled_state(state),
    );
    let hadamard_product_proof = hadamard_proving(params, statement, witness, rho, state)->Ok_0;
    let after = super::prover::hadamard_state(params, statement, witness, rho, state);
    single_value_argument::completeness::lemma_honest_proof_is_accepted(
        single_value_parameters(params),
        single_value_statement(statement, b_commit),
        single_value_witness(witness, rho),
        rho.single_value,
        after,
    );
    let single_value_proof = single_value_proving(params, statement, witness, rho, state)->Ok_0;
    let proof = ProofModel { b_commit, hadamard_product_proof, single_value_proof };
    assert(proving(params, statement, witness, rho, state) == Ok::<ProofModel, ErrorModel>(proof));
    assert(hadamard_verification(params, statement, proof, state) is Ok);
    assert(super::verification::hadamard_state(params, statement, proof, state) == after);
}

} // verus!
