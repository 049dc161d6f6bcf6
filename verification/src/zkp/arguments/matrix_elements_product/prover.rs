//! The prover of the matrix-elements-product argument.
use super::{
    absorb_label, hadamard_parameters, hadamard_statement, labelled_state,
    single_value_parameters, single_value_statement, valid_statement, Parameters, ParametersModel,
    Statement, StatementModel, Witness, WitnessModel,
};
use super::super::hadamard_product as hadamard_argument;
use super::super::single_value_product as single_value_argument;
use super::verification::{Proof, ProofModel};
use crate::error::{CryptoError, ErrorModel};
use crate::field::{matrix_values, order, reduced, scalar_values, Scalar};
use crate::utils::random::sample_vector;
use crate::vector_commitment::pedersen::{commitment, PedersenCommitment};
use crate::zkp::arguments::{has_shape, shape_is};
use crate::zkp::transcript::Transcript;
use vstd::prelude::*;

verus! {

/// The random values that the prover draws: the randomness of the commitment to the product
/// of the rows, and the random values of the two arguments that the argument reduces to.
pub struct Randomness {
    pub s: Scalar,
    pub hadamard: hadamard_argument::prover::Randomness,
    pub single_value: single_value_argument::prover::Randomness,
}

/// The mathematical content of the random values.
pub struct RandomnessModel {
    pub s: nat,
    pub hadamard: hadamard_argument::prover::RandomnessModel,
    pub single_value: single_value_argument::prover::RandomnessModel,
}

impl View for Randomness {
    type V = RandomnessModel;

    open spec fn view(&self) -> RandomnessModel {
        RandomnessModel { s: self.s@, hadamard: self.hadamard@, single_value: self.single_value@ }
    }
}

/// The entry-wise product of all rows of the matrix.
pub open spec fn product_of_rows(witness: WitnessModel) -> Seq<nat> {
    hadamard_argument::prover::partial_product(
        witness.matrix_a,
        (witness.matrix_a.len() - 1) as nat,
    )
}

/// The commitment to the entry-wise product of all rows.
pub open spec fn product_commitment(
    params: ParametersModel,
    witness: WitnessModel,
    rho: RandomnessModel,
) -> nat {
    commitment(params.commit_key, product_of_rows(witness), rho.s)
}

/// The witness of the Hadamard-product argument that the argument reduces to.
pub open spec fn hadamard_witness(witness: WitnessModel, rho: RandomnessModel) -> hadamard_argument::WitnessModel {
    hadamard_argument::WitnessModel {
        matrix_a: witness.matrix_a,
        randoms_for_a_commit: witness.randoms_for_a_commit,
        vector_b: product_of_rows(witness),
        random_for_b_commit: rho.s,
    }
}

/// The witness of the single-value-product argument that the argument reduces to.
pub open spec fn single_value_witness(witness: WitnessModel, rho: RandomnessModel) -> single_value_argument::WitnessModel {
    single_value_argument::WitnessModel { a: product_of_rows(witness), random_for_a_commit: rho.s }
}

/// What the prover of the Hadamard-product argument returns in the reduction.
pub open spec fn hadamard_proving(
    params: ParametersModel,
    statement: StatementModel,
    witness: WitnessModel,
    rho: RandomnessModel,
    state: Seq<u8>,
) -> Result<hadamard_argument::verification::ProofModel, ErrorModel> {
    hadamard_argument::prover::proving(
        hadamard_parameters(params),
        hadamard_statement(statement, product_commitment(params, witness, rho)),
        hadamard_witness(witness, rho),
        rho.hadamard,
        labelled_state(state),
    )
}

/// The state in which the prover of the Hadamard-product argument leaves the transcript.
pub open spec fn hadamard_state(
    params: ParametersModel,
    statement: StatementModel,
    witness: WitnessModel,
    rho: RandomnessModel,
    state: Seq<u8>,
) -> Seq<u8> {
    hadamard_argument::prover::proved_state(
        hadamard_parameters(params),
        hadamard_statement(statement, product_commitment(params, witness, rho)),
        hadamard_witness(witness, rho),
        rho.hadamard,
        labelled_state(state),
    )
}

/// What the prover of the single-value-product argument returns in the reduction.
pub open spec fn single_value_proving(
    params: ParametersModel,
    statement: StatementModel,
    witness: WitnessModel,
    rho: RandomnessModel,
    state: Seq<u8>,
) -> Result<single_value_argument::verification::ProofModel, ErrorModel> {
    single_value_argument::prover::proving(
        single_value_parameters(params),
        single_value_statement(statement, product_commitment(params, witness, rho)),
        single_value_witness(witness, rho),
        rho.single_value,
        hadamard_state(params, statement, witness, rho, state),
    )
}

/// Whether the prover gives up before it touches the transcript, and with which error: the
/// statement must fit the parameters, the matrix must have the dimensions of the parameters
/// and at least one row, and the key must have a base for every column.
pub open spec fn early_failure(
    params: ParametersModel,
    statement: StatementModel,
    witness: WitnessModel,
) -> Option<ErrorModel> {
    if !valid_statement(params, statement) {
        Some(ErrorModel::InvalidProductArgumentStatement)
    } else if params.m < 1 || !has_shape(witness.matrix_a, params.m, params.n) {
        Some(ErrorModel::HadamardProductLength(witness.matrix_a.len(), params.m))
    } else if params.n > params.commit_key.g.len() {
        Some(ErrorModel::CommitmentLength("Pedersen"@, params.n, params.commit_key.g.len()))
    } else {
        None
    }
}

/// What the prover returns for the given random values, for a transcript in the given state.
pub open spec fn proving(
    params: ParametersModel,
    statement: StatementModel,
    witness: WitnessModel,
    rho: RandomnessModel,
    state: Seq<u8>,
) -> Result<ProofModel, ErrorModel> {
    if early_failure(params, statement, witness) is Some {
        Err(early_failure(params, statement, witness)->Some_0)
    } else {
        match hadamard_proving(params, statement, witness, rho, state) {
            Err(e) => Err(e),
            Ok(hadamard_product_proof) => match single_value_proving(
                params,
                statement,
                witness,
                rho,
                state,
            ) {
                Err(e) => Err(e),
                Ok(single_value_proof) => Ok(
                    ProofModel {
                        b_commit: product_commitment(params, witness, rho),
                        hadamard_product_proof,
                        single_value_proof,
                    },
                ),
            },
        }
    }
}

/// The state in which the prover leaves the transcript.
pub open spec fn proved_state(
    params: ParametersModel,
    statement: StatementModel,
    witness: WitnessModel,
    rho: RandomnessModel,
    state: Seq<u8>,
) -> Seq<u8> {
    if early_failure(params, statement, witness) is Some {
        state
    } else if hadamard_proving(params, statement, witness, rho, state) is Err {
        hadamard_state(params, statement, witness, rho, state)
    } else {
        single_value_argument::prover::proved_state(
            single_value_parameters(params),
            single_value_statement(statement, product_commitment(params, witness, rho)),
            single_value_witness(witness, rho),
            rho.single_value,
            hadamard_state(params, statement, witness, rho, state),
        )
    }
}

/// The model of what a prover returns.
pub open spec fn proof_outcome(r: Result<Proof, CryptoError>) -> Result<ProofModel, ErrorModel> {
    match r {
        Ok(p) => Ok(p@),
        Err(e) => Err(e@),
    }
}

/// Whether the random values have the dimensions that a prover draws them in for a matrix of
/// `m` rows of `n` entries, and are reduced.
pub open spec fn drawn(m: nat, n: nat, rho: RandomnessModel) -> bool {
    &&& rho.s < order()
    &&& m >= 2 ==> rho.hadamard.s.len() == m - 2
    &&& reduced(rho.hadamard.s)
    &&& rho.hadamard.zero.a_0.len() == n
    &&& rho.hadamard.zero.b_m.len() == n
    &&& rho.hadamard.zero.t.len() == 2 * m + 1
    &&& reduced(rho.hadamard.zero.a_0)
    &&& reduced(rho.hadamard.zero.b_m)
    &&& reduced(rho.hadamard.zero.t)
    &&& rho.hadamard.zero.r_0 < order()
    &&& rho.hadamard.zero.s_m < order()
    &&& rho.single_value.d.len() == n
    &&& n >= 2 ==> rho.single_value.delta.len() == n - 2
    &&& reduced(rho.single_value.d)
    &&& reduced(rho.single_value.delta)
    &&& rho.single_value.r_d < order()
    &&& rho.single_value.s_1 < order()
    &&& rho.single_value.s_x < order()
}

/// Whether a run of the prover that drew the random values `rho` returns `result` and leaves
/// the transcript in the state `after`.
pub open spec fn run_with(
    params: ParametersModel,
    statement: StatementModel,
    witness: WitnessModel,
    rho: RandomnessModel,
    state: Seq<u8>,
    result: Result<ProofModel, ErrorModel>,
    after: Seq<u8>,
) -> bool {
    &&& drawn(params.m, params.n, rho)
    &&& result == proving(params, statement, witness, rho, state)
    &&& after == proved_state(params, statement, witness, rho, state)
}

/// The prover of the matrix-elements-product argument.
pub struct Prover<'a> {
    parameters: &'a Parameters<'a>,
    statement: &'a Statement<'a>,
    witness: &'a Witness<'a>,
}

impl Randomness {
    /// Draws the random values of a prover from the random number generator.
    pub fn sample(rng: &mut rand::rngs::StdRng, m: usize, n: usize) -> (r: Randomness)
        requires
            2 * m + 1 <= usize::MAX,
        ensures
            drawn(m as nat, n as nat, r@),
    {
        let s = Scalar::rand(rng);
        let products = sample_vector(rng, if m >= 2 {
            m - 2
        } else {
            0
        });
        let a_0 = sample_vector(rng, n);
        let b_m = sample_vector(rng, n);
        let r_0 = Scalar::rand(rng);
        let s_m = Scalar::rand(rng);
        let t = sample_vector(rng, 2 * m + 1);
        let zero = super::super::zero_value_bilinear_map::prover::Randomness {
            a_0,
            b_m,
            r_0,
            s_m,
            t,
        };
        let hadamard = hadamard_argument::prover::Randomness { s: products, zero };
        let d = sample_vector(rng, n);
        let delta = sample_vector(rng, if n >= 2 {
            n - 2
        } else {
            0
        });
        let r_d = Scalar::rand(rng);
        let s_1 = Scalar::rand(rng);
        let s_x = Scalar::rand(rng);
        let single_value = single_value_argument::prover::Randomness { d, delta, r_d, s_1, s_x };
        Randomness { s, hadamard, single_value }
    }
}

impl<'a> Prover<'a> {
    /// The prover for the given parameters, statement and witness.
    pub fn new(
        parameters: &'a Parameters<'a>,
        statement: &'a Statement<'a>,
        witness: &'a Witness<'a>,
    ) -> (r: Prover<'a>)
        ensures
            r.parameters() == parameters,
            r.statement() == statement,
            r.witness() == witness,
    {
        Prover { parameters, statement, witness }
    }

    /// The parameters that the prover was made with.
    pub closed spec fn parameters(&self) -> &'a Parameters<'a> {
        self.parameters
    }

    /// The statement that the prover was made with.
    pub closed spec fn statement(&self) -> &'a Statement<'a> {
        self.statement
    }

    /// The witness that the prover was made with.
    pub closed spec fn witness(&self) -> &'a Witness<'a> {
        self.witness
    }

    /// Proves the statement with the given random values.
    pub fn prove_with(&self, randomness: &Randomness, fs_rng: &mut Transcript) -> (r: Result<
        Proof,
        CryptoError,
    >)
        requires
            2 * self.parameters().m + 1 <= usize::MAX,
        ensures
            proof_outcome(r) == proving(
                self.parameters()@,
                self.statement()@,
                self.witness()@,
                randomness@,
                old(fs_rng)@,
            ),
            final(fs_rng)@ == proved_state(
                self.parameters()@,
                self.statement()@,
                self.witness()@,
                randomness@,
                old(fs_rng)@,
            ),
    {
        let m = self.parameters.m;
        let n = self.parameters.n;
        match self.statement.is_valid(self.parameters) {
            Ok(_) => {},
            Err(e) => {
                return Err(e);
            },
        }
        if m < 1 || !shape_is(self.witness.matrix_a, m, n) {
            return Err(CryptoError::HadamardProductLengthError(self.witness.matrix_a.len(), m));
        }
        // The entry-wise product of the rows, and the commitment to it.
        let mut products = hadamard_argument::prover::partial_products_of(
            self.witness.matrix_a,
            m,
            n,
        );
        assert(matrix_values(products@)[m - 1].len() == n);
        assert(matrix_values(products@)[m - 1] == scalar_values(products@[m - 1]@));
        let product = match products.pop() {
            Some(row) => row,
            None => {
                assert(false);
                return Err(CryptoError::InvalidProductArgumentStatement);
            },
        };
        assert(scalar_values(product@) == product_of_rows(self.witness@)) by {
            let all = hadamard_argument::prover::partial_products(self.witness@.matrix_a);
            assert(all[m - 1] == product_of_rows(self.witness@));
        }
        assert(product@.len() == n);
        let b_commit = match PedersenCommitment::commit(
            self.parameters.commit_key,
            &product,
            randomness.s,
        ) {
            Ok(c) => c,
            Err(e) => {
                return Err(e);
            },
        };
        absorb_label(fs_rng);

        // The Hadamard-product argument.
        let hadamard_product_parameters = hadamard_argument::Parameters::new(
            m,
            n,
            self.parameters.commit_key,
        );
        let hadamard_product_statement = hadamard_argument::Statement::new(
            self.statement.commitments_to_a,
            b_commit,
        );
        let hadamard_product_witness = hadamard_argument::Witness::new(
            self.witness.matrix_a,
            self.witness.randoms_for_a_commit,
            &product,
            randomness.s,
        );
        let hadamard_product_prover = hadamard_argument::prover::Prover::new(
            &hadamard_product_parameters,
            &hadamard_product_statement,
            &hadamard_product_witness,
        );
        let hadamard_product_proof = match hadamard_product_prover.prove_with(
            &randomness.hadamard,
            fs_rng,
        ) {
            Ok(p) => p,
            Err(e) => {
                return Err(e);
            },
        };

        // The single-value-product argument.
        let single_value_product_parameters = single_value_argument::Parameters::new(
            n,
            self.parameters.commit_key,
        );
        let single_value_product_statement = single_value_argument::Statement::new(
            &b_commit,
            self.statement.b,
        );
        let single_value_product_witness = single_value_argument::Witness::new(
            &product,
            &randomness.s,
        );
        let single_value_product_prover = single_value_argument::prover::Prover::new(
            &single_value_product_parameters,
            &single_value_product_statement,
            &single_value_product_witness,
        );
        let single_value_proof = match single_value_product_prover.prove_with(
            &randomness.single_value,
            fs_rng,
        ) {
            Ok(p) => p,
            Err(e) => {
                return Err(e);
            },
        };

        Ok(Proof { b_commit, hadamard_product_proof, single_value_proof })
    }

    /// Proves the statement, drawing the random values from the random number generator.
    pub fn prove(&self, rng: &mut rand::rngs::StdRng, fs_rng: &mut Transcript) -> (r: Result<
        Proof,
        CryptoError,
    >)
        requires
            2 * self.parameters().m + 1 <= usize::MAX,
        ensures
            exists|rho: RandomnessModel| #[trigger]
                run_with(
                    self.parameters()@,
                    self.statement()@,
                    self.witness()@,
                    rho,
                    old(fs_rng)@,
                    proof_outcome(r),
                    final(fs_rng)@,
                ),
    {
        let randomness = Randomness::sample(rng, self.parameters.m, self.parameters.n);
        let r = self.prove_with(&randomness, fs_rng);
        proof {
            assert(run_with(
                self.parameters()@,
                self.statement()@,
                self.witness()@,
                randomness@,
                old(fs_rng)@,
                proof_outcome(r),
                fs_rng@,
            ));
        }
        r
    }
}

} // verus!
