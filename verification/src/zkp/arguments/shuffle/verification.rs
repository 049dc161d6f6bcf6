//! The proof of the shuffle argument, and its verifier.
use super::{
    challenge_powers_of, challenge_x, challenge_y, challenge_z, challenged_state, cipher_rows_of,
    first_challenge, later_challenges, multi_exp_parameters, multi_exp_statement,
    product_parameters, size, valid_statement, Parameters, ParametersModel, Statement,
    StatementModel,
};
use super::super::matrix_elements_product as product_argument;
use super::super::multi_exponentiation as multi_exponentiation_argument;
use crate::error::{outcome, CryptoError, ErrorModel};
use crate::field::{fadd, fmul, fneg, fpow, fsub, scalar_values, Scalar};
use crate::homomorphic_encryption::el_gamal::{cipher_weighted_sum, Ciphertext};
use crate::vector_commitment::pedersen::{
    commitment, commitment_values, CommitKeyModel, Commitment, PedersenCommitment,
};
use crate::zkp::arguments::rising_powers;
use crate::zkp::transcript::Transcript;
use vstd::prelude::*;

verus! {

/// A proof of the shuffle argument.
#[derive(Clone, Debug)]
pub struct Proof {
    pub a_commits: Vec<Commitment>,
    pub b_commits: Vec<Commitment>,
    pub product_argument_proof: product_argument::verification::Proof,
    pub multi_exp_proof: multi_exponentiation_argument::verification::Proof,
}

/// The mathematical content of a proof.
pub struct ProofModel {
    pub a_commits: Seq<nat>,
    pub b_commits: Seq<nat>,
    pub product_argument_proof: product_argument::verification::ProofModel,
    pub multi_exp_proof: multi_exponentiation_argument::verification::ProofModel,
}

impl View for Proof {
    type V = ProofModel;

    open spec fn view(&self) -> ProofModel {
        ProofModel {
            a_commits: commitment_values(self.a_commits@),
            b_commits: commitment_values(self.b_commits@),
            product_argument_proof: self.product_argument_proof@,
            multi_exp_proof: self.multi_exp_proof@,
        }
    }
}

/// The product of the `y * i + x^i - z` over `i` from 1 to `upto`.
pub open spec fn expected_product(x: nat, y: nat, z: nat, upto: nat) -> nat
    decreases upto,
{
    if upto == 0 {
        1
    } else {
        fmul(
            expected_product(x, y, z, (upto - 1) as nat),
            fsub(fadd(fmul(y, upto), fpow(x, upto)), z),
        )
    }
}

/// The vector whose `n` entries are all `-z`.
pub open spec fn negated_challenge(z: nat, n: nat) -> Seq<nat> {
    Seq::new(n, |i: int| fneg(z))
}

/// The smallest of three lengths.
pub open spec fn shortest(a: nat, b: nat, c: nat) -> nat {
    if a <= b && a <= c {
        a
    } else if b <= c {
        b
    } else {
        c
    }
}

/// The commitments of the product statement: `y` times the commitment of the first round
/// plus the commitment of the second round plus the commitment to the vector of `-z` with no
/// randomness, row by row.
pub open spec fn masked_commitments(
    commit_key: CommitKeyModel,
    a_commits: Seq<nat>,
    b_commits: Seq<nat>,
    y: nat,
    z: nat,
    m: nat,
    n: nat,
) -> Seq<nat> {
    Seq::new(
        shortest(a_commits.len(), b_commits.len(), m),
        |i: int|
            fadd(
                fadd(fmul(y, a_commits[i]), b_commits[i]),
                commitment(commit_key, negated_challenge(z, n), 0),
            ),
    )
}

/// The statement of the product argument that the verifier checks.
pub open spec fn product_statement(
    params: ParametersModel,
    statement: StatementModel,
    proof: ProofModel,
    state: Seq<u8>,
) -> product_argument::StatementModel {
    let x = challenge_x(params, statement, proof.a_commits, state);
    let y = challenge_y(params, statement, proof.a_commits, proof.b_commits, state);
    let z = challenge_z(params, statement, proof.a_commits, proof.b_commits, state);
    product_argument::StatementModel {
        commitments_to_a: masked_commitments(
            params.commit_key,
            proof.a_commits,
            proof.b_commits,
            y,
            z,
            statement.m,
            statement.n,
        ),
        b: expected_product(x, y, z, size(statement)),
    }
}

/// What the verifier of the product argument returns in the reduction.
pub open spec fn product_verification(
    params: ParametersModel,
    statement: StatementModel,
    proof: ProofModel,
    state: Seq<u8>,
) -> Result<(), ErrorModel> {
    product_argument::verification::verification(
        product_parameters(params, statement),
        product_statement(params, statement, proof, state),
        proof.product_argument_proof,
        challenged_state(params, statement, proof.a_commits, proof.b_commits, state),
    )
}

/// The state in which the verifier of the product argument leaves the transcript.
pub open spec fn product_state(
    params: ParametersModel,
    statement: StatementModel,
    proof: ProofModel,
    state: Seq<u8>,
) -> Seq<u8> {
    product_argument::verification::verified_state(
        product_parameters(params, statement),
        product_statement(params, statement, proof, state),
        proof.product_argument_proof,
        challenged_state(params, statement, proof.a_commits, proof.b_commits, state),
    )
}

/// The statement of the multi-exponentiation argument that the verifier checks: the claimed
/// product is the sum of the input ciphertexts, number `i` (counted from one) multiplied by
/// `x^i`.
pub open spec fn exponentiation_statement(
    params: ParametersModel,
    statement: StatementModel,
    proof: ProofModel,
    state: Seq<u8>,
) -> multi_exponentiation_argument::StatementModel {
    let x = challenge_x(params, statement, proof.a_commits, state);
    multi_exp_statement(
        statement,
        cipher_weighted_sum(
            rising_powers(x, size(statement)),
            statement.input_ciphers,
            size(statement),
        ),
        proof.b_commits,
    )
}

/// What the verifier returns on a proof, for a transcript in the given state: the statement
/// must be valid, and both sub-proofs must verify.
pub open spec fn verification(
    params: ParametersModel,
    statement: StatementModel,
    proof: ProofModel,
    state: Seq<u8>,
) -> Result<(), ErrorModel> {
    if !valid_statement(statement) {
        Err(ErrorModel::InvalidShuffleStatement)
    } else if statement.n > params.commit_key.g.len() {
        Err(ErrorModel::CommitmentLength("Pedersen"@, statement.n, params.commit_key.g.len()))
    } else if product_verification(params, statement, proof, state) is Err {
        product_verification(params, statement, proof, state)
    } else {
        multi_exponentiation_argument::verification::verification(
            multi_exp_parameters(params),
            exponentiation_statement(params, statement, proof, state),
            proof.multi_exp_proof,
            product_state(params, statement, proof, state),
        )
    }
}

/// The state in which the verifier leaves the transcript.
pub open spec fn verified_state(
    params: ParametersModel,
    statement: StatementModel,
    proof: ProofModel,
    state: Seq<u8>,
) -> Seq<u8> {
    if !valid_statement(statement) {
        state
    } else if statement.n > params.commit_key.g.len() {
        challenged_state(params, statement, proof.a_commits, proof.b_commits, state)
    } else if product_verification(params, statement, proof, state) is Err {
        product_state(params, statement, proof, state)
    } else {
        multi_exponentiation_argument::verification::verified_state(
            multi_exp_parameters(params),
            exponentiation_statement(params, statement, proof, state),
            proof.multi_exp_proof,
            product_state(params, statement, proof, state),
        )
    }
}

/// The vector whose `n` entries are all `-z`.
pub fn negated_challenge_vector(z: &Scalar, n: usize) -> (r: Vec<Scalar>)
    ensures
        scalar_values(r@) == negated_challenge(z@, n as nat),
{
    let minus_z = z.neg();
    let mut r: Vec<Scalar> = Vec::new();
    let mut i: usize = 0;
    while i < n
        invariant
            i <= n,
            r@.len() == i,
            minus_z@ == fneg(z@),
            forall|k: int| 0 <= k < i ==> (#[trigger] r@[k])@ == fneg(z@),
        decreases n - i,
    {
        r.push(minus_z);
        i = i + 1;
    }
    assert(scalar_values(r@) =~= negated_challenge(z@, n as nat));
    r
}

/// The product of the `y * i + x^i - z` over `i` from 1 to the number of powers given.
pub(crate) fn expected_product_of(challenge_powers: &Vec<Scalar>, y: &Scalar, z: &Scalar, Ghost(x): Ghost<nat>) -> (r: Scalar)
    requires
        scalar_values(challenge_powers@) == rising_powers(x, challenge_powers@.len()),
    ensures
        r@ == expected_product(x, y@, z@, challenge_powers@.len()),
{
    let size = challenge_powers.len();
    let mut acc = Scalar::one();
    let mut i: usize = 0;
    while i < size
        invariant
            i <= size,
            size == challenge_powers@.len(),
            scalar_values(challenge_powers@) == rising_powers(x, size as nat),
            acc@ == expected_product(x, y@, z@, i as nat),
        decreases size - i,
    {
        assert(scalar_values(challenge_powers@)[i as int] == challenge_powers@[i as int]@);
        let index = Scalar::from_u64((i + 1) as u64);
        let term = y.mul(&index).add(&challenge_powers[i]).sub(z);
        acc = acc.mul(&term);
        i = i + 1;
    }
    acc
}

impl Proof {
    /// Verifies the proof against the statement.
    pub fn verify(
        &self,
        proof_parameters: &Parameters,
        statement: &Statement,
        fs_rng: &mut Transcript,
    ) -> (r: Result<(), CryptoError>)
        requires
            2 * statement.m + 1 <= usize::MAX,
            statement.input_ciphers@.len() < usize::MAX,
        ensures
            outcome(r) == verification(proof_parameters@, statement@, self@, old(fs_rng)@),
            final(fs_rng)@ == verified_state(proof_parameters@, statement@, self@, old(fs_rng)@),
    {
        match statement.is_valid() {
            Ok(_) => {},
            Err(e) => {
                return Err(e);
            },
        }
        let m = statement.m;
        let n = statement.n;
        let number_of_ciphers = statement.input_ciphers.len();
        let ghost state = fs_rng@;

        // Round 1.
        let x = first_challenge(proof_parameters, statement, &self.a_commits, fs_rng);
        let challenge_powers = challenge_powers_of(x, number_of_ciphers);

        // Round 2.
        let (y, z) = later_challenges(&self.b_commits, fs_rng);

        // The product argument.
        let z_vec = negated_challenge_vector(&z, n);
        let single_neg_z_commit = match PedersenCommitment::commit(
            proof_parameters.commit_key,
            &z_vec,
            Scalar::zero(),
        ) {
            Ok(c) => c,
            Err(e) => {
                return Err(e);
            },
        };
        let mut rows_to_mask = self.a_commits.len();
        if self.b_commits.len() < rows_to_mask {
            rows_to_mask = self.b_commits.len();
        }
        if m < rows_to_mask {
            rows_to_mask = m;
        }
        let mut commitments_to_a: Vec<Commitment> = Vec::new();
        let mut i: usize = 0;
        while i < rows_to_mask
            invariant
                i <= rows_to_mask,
                rows_to_mask <= self.a_commits@.len(),
                rows_to_mask <= self.b_commits@.len(),
                commitments_to_a@.len() == i,
                forall|k: int|
                    0 <= k < i ==> (#[trigger] commitments_to_a@[k])@ == fadd(
                        fadd(fmul(y@, self.a_commits@[k]@), self.b_commits@[k]@),
                        single_neg_z_commit@,
                    ),
            decreases rows_to_mask - i,
        {
            let c_d = self.a_commits[i].mul(&y).add(&self.b_commits[i]);
            commitments_to_a.push(c_d.add(&single_neg_z_commit));
            i = i + 1;
        }
        assert(commitment_values(commitments_to_a@) =~= masked_commitments(
            proof_parameters@.commit_key,
            self@.a_commits,
            self@.b_commits,
            y@,
            z@,
            m as nat,
            n as nat,
        ));
        let verifier_side_expected_product = expected_product_of(
            &challenge_powers,
            &y,
            &z,
            Ghost(x@),
        );

        let product_argument_parameters = product_argument::Parameters::new(
            m,
            n,
            proof_parameters.commit_key,
        );
        let product_argument_statement = product_argument::Statement::new(
            &commitments_to_a,
            verifier_side_expected_product,
        );
        assert(product_argument_statement@ == product_statement(
            proof_parameters@,
            statement@,
            self@,
            state,
        ));
        match self.product_argument_proof.verify(
            &product_argument_parameters,
            &product_argument_statement,
            fs_rng,
        ) {
            Ok(_) => {},
            Err(e) => {
                return Err(e);
            },
        }

        // The multi-exponentiation argument.
        let multi_exp_parameters = multi_exponentiation_argument::Parameters::new(
            proof_parameters.encrypt_parameters,
            proof_parameters.public_key,
            proof_parameters.commit_key,
            proof_parameters.generator,
        );
        let shuffled_chunks = cipher_rows_of(statement.shuffled_ciphers, m, n);
        let product = match Ciphertext::dot_product(&challenge_powers, statement.input_ciphers) {
            Ok(c) => c,
            Err(e) => {
                assert(false);
                return Err(e);
            },
        };
        let multi_exp_statement = multi_exponentiation_argument::Statement::new(
            &shuffled_chunks,
            product,
            &self.b_commits,
        );
        assert(multi_exp_statement@ == exponentiation_statement(
            proof_parameters@,
            statement@,
            self@,
            state,
        ));
        match self.multi_exp_proof.verify(&multi_exp_parameters, &multi_exp_statement, fs_rng) {
            Ok(_) => {},
            Err(e) => {
                return Err(e);
            },
        }

        Ok(())
    }
}

} // verus!
