//! The prover of the shuffle argument.
use super::{
    challenge_powers_of, challenge_x, challenge_y, challenge_z, challenged_state, cipher_rows_of,
    first_challenge, later_challenges, multi_exp_parameters, multi_exp_statement,
    product_parameters, scalar_rows_of, size, valid_statement, Parameters, ParametersModel,
    Statement, StatementModel, Witness, WitnessModel,
};
use super::super::matrix_elements_product as product_argument;
use super::super::multi_exponentiation as multi_exponentiation_argument;
use super::verification::{Proof, ProofModel};
use crate::error::{CryptoError, ErrorModel};
use crate::field::{
    fadd, fmul, fneg, fsub, matrix_values, order, reduced, scalar_values, weighted_sum, Scalar,
};
use crate::homomorphic_encryption::el_gamal::{
    cipher_sum, cipher_weighted_sum, encryption, Ciphertext, ElGamal, Plaintext,
};
use crate::utils::permutation::permuted;
use crate::utils::random::sample_vector;
use crate::utils::vector_arithmetic::{dot_product, rows};
use crate::vector_commitment::pedersen::{
    commitment, commitment_values, CommitKey, CommitKeyModel, Commitment, PedersenCommitment,
};
use crate::zkp::arguments::{has_shape, rising_powers};
use crate::zkp::transcript::Transcript;
use vstd::prelude::*;

verus! {

/// The random values that the prover draws: the randomness of the commitments of the two
/// rounds, and the random values of the two arguments that the argument reduces to.
pub struct Randomness {
    pub r: Vec<Scalar>,
    pub s: Vec<Scalar>,
    pub product: product_argument::prover::Randomness,
    pub multi_exp: multi_exponentiation_argument::prover::Randomness,
}

/// The mathematical content of the random values.
pub struct RandomnessModel {
    pub r: Seq<nat>,
    pub s: Seq<nat>,
    pub product: product_argument::prover::RandomnessModel,
    pub multi_exp: multi_exponentiation_argument::prover::RandomnessModel,
}

impl View for Randomness {
    type V = RandomnessModel;

    open spec fn view(&self) -> RandomnessModel {
        RandomnessModel {
            r: scalar_values(self.r@),
            s: scalar_values(self.s@),
            product: self.product@,
            multi_exp: self.multi_exp@,
        }
    }
}

/// The vector `(1, 2, .., size)`.
pub open spec fn index_vector(size: nat) -> Seq<nat> {
    Seq::new(size, |i: int| (i + 1) as nat)
}

/// The commitments to the rows of the `m` by `n` matrix that a vector fills, row `i` with the
/// randomness `randoms[i]`.
pub open spec fn row_commitments(
    commit_key: CommitKeyModel,
    v: Seq<nat>,
    randoms: Seq<nat>,
    m: nat,
    n: nat,
) -> Seq<nat> {
    Seq::new(m, |i: int| commitment(commit_key, rows(v, m, n)[i], randoms[i]))
}

/// The vector `(y * a[i] + b[i] - z)`.
pub open spec fn shifted(a: Seq<nat>, b: Seq<nat>, y: nat, z: nat) -> Seq<nat> {
    Seq::new(a.len(), |i: int| fsub(fadd(fmul(y, a[i]), b[i]), z))
}

/// The vector `(y * r[i] + s[i])`.
pub open spec fn combined(r: Seq<nat>, s: Seq<nat>, y: nat) -> Seq<nat> {
    Seq::new(r.len(), |i: int| fadd(fmul(y, r[i]), s[i]))
}

/// The product of the first `upto` entries of a vector.
pub open spec fn product_of(v: Seq<nat>, upto: nat) -> nat
    decreases upto,
{
    if upto == 0 {
        1
    } else {
        fmul(product_of(v, (upto - 1) as nat), v[upto - 1])
    }
}

/// The vector with every entry negated.
pub open spec fn negated(v: Seq<nat>) -> Seq<nat> {
    Seq::new(v.len(), |i: int| fneg(v[i]))
}

/// What the prover computes in the two rounds of the argument, before it reduces it.
pub struct Rounds {
    /// The permuted vector `(1, .., N)`.
    pub a: Seq<nat>,
    /// The commitments to the rows of `a`.
    pub a_commits: Seq<nat>,
    /// The first challenge.
    pub x: nat,
    /// The permuted vector of the powers of `x`.
    pub b: Seq<nat>,
    /// The commitments to the rows of `b`.
    pub b_commits: Seq<nat>,
    /// The second challenge.
    pub y: nat,
    /// The third challenge.
    pub z: nat,
    /// The vector `y * a + b - z`.
    pub d_minus_z: Seq<nat>,
    /// The randomness of the commitments to the rows of `d_minus_z`.
    pub t: Seq<nat>,
    /// The randomness that masks the product of the multi-exponentiation statement.
    pub rho: nat,
    /// The state of the transcript after the three challenges.
    pub state: Seq<u8>,
}

/// What the prover computes in the two rounds of the argument.
pub open spec fn rounds(
    params: ParametersModel,
    statement: StatementModel,
    witness: WitnessModel,
    rho: RandomnessModel,
    state: Seq<u8>,
) -> Rounds {
    let ck = params.commit_key;
    let a = permuted(index_vector(size(statement)), witness.permutation);
    let a_commits = row_commitments(ck, a, rho.r, statement.m, statement.n);
    let x = challenge_x(params, statement, a_commits, state);
    let b = permuted(rising_powers(x, size(statement)), witness.permutation);
    let b_commits = row_commitments(ck, b, rho.s, statement.m, statement.n);
    let y = challenge_y(params, statement, a_commits, b_commits, state);
    let z = challenge_z(params, statement, a_commits, b_commits, state);
    Rounds {
        a,
        a_commits,
        x,
        b,
        b_commits,
        y,
        z,
        d_minus_z: shifted(a, b, y, z),
        t: combined(rho.r, rho.s, y),
        rho: weighted_sum(negated(witness.rho), b, size(statement)),
        state: challenged_state(params, statement, a_commits, b_commits, state),
    }
}

/// The statement of the product argument that the prover proves.
pub open spec fn product_statement(
    params: ParametersModel,
    statement: StatementModel,
    rounds: Rounds,
) -> product_argument::StatementModel {
    product_argument::StatementModel {
        commitments_to_a: row_commitments(
            params.commit_key,
            rounds.d_minus_z,
            rounds.t,
            statement.m,
            statement.n,
        ),
        b: product_of(rounds.d_minus_z, size(statement)),
    }
}

/// The witness of the product argument.
pub open spec fn product_witness(statement: StatementModel, rounds: Rounds) -> product_argument::WitnessModel {
    product_argument::WitnessModel {
        matrix_a: rows(rounds.d_minus_z, statement.m, statement.n),
        randoms_for_a_commit: rounds.t,
    }
}

/// The statement of the multi-exponentiation argument that the prover proves: the claimed
/// product is the sum of the shuffled ciphertexts, each multiplied by its entry of `b`, plus
/// an encryption of the neutral plaintext.
pub open spec fn exponentiation_statement(
    params: ParametersModel,
    statement: StatementModel,
    rounds: Rounds,
) -> multi_exponentiation_argument::StatementModel {
    multi_exp_statement(
        statement,
        cipher_sum(
            cipher_weighted_sum(rounds.b, statement.shuffled_ciphers, size(statement)),
            encryption(params.encrypt_parameters, params.public_key, 0, rounds.rho),
        ),
        rounds.b_commits,
    )
}

/// The witness of the multi-exponentiation argument.
pub open spec fn exponentiation_witness(
    statement: StatementModel,
    rho: RandomnessModel,
    rounds: Rounds,
) -> multi_exponentiation_argument::WitnessModel {
    multi_exponentiation_argument::WitnessModel {
        matrix_a: rows(rounds.b, statement.m, statement.n),
        matrix_blinders: rho.s,
        rho: rounds.rho,
    }
}

/// Whether the prover gives up before it touches the transcript, and with which error: the
/// statement must be valid, the permutation and the masking randomness must have one entry
/// for each ciphertext, the random values one for each row, and the key a base for every
/// column.
pub open spec fn early_failure(
    params: ParametersModel,
    statement: StatementModel,
    witness: WitnessModel,
    rho: RandomnessModel,
) -> Option<ErrorModel> {
    if !valid_statement(statement) {
        Some(ErrorModel::InvalidShuffleStatement)
    } else if witness.permutation.len() != size(statement) {
        Some(ErrorModel::VectorCasting(witness.permutation.len(), statement.m, statement.n))
    } else if witness.rho.len() != size(statement) {
        Some(ErrorModel::DotProductLength(witness.rho.len(), size(statement)))
    } else if rho.r.len() != statement.m || rho.s.len() != statement.m {
        Some(ErrorModel::DotProductLength(rho.r.len(), rho.s.len()))
    } else if statement.n > params.commit_key.g.len() {
        Some(ErrorModel::CommitmentLength("Pedersen"@, statement.n, params.commit_key.g.len()))
    } else {
        None
    }
}

/// What the prover of the product argument returns in the reduction.
pub open spec fn product_proving(
    params: ParametersModel,
    statement: StatementModel,
    witness: WitnessModel,
    rho: RandomnessModel,
    state: Seq<u8>,
) -> Result<product_argument::verification::ProofModel, ErrorModel> {
    let rounds = rounds(params, statement, witness, rho, state);
    product_argument::prover::proving(
        product_parameters(params, statement),
        product_statement(params, statement, rounds),
        product_witness(statement, rounds),
        rho.product,
        rounds.state,
    )
}

/// The state in which the prover of the product argument leaves the transcript.
pub open spec fn product_state(
    params: ParametersModel,
    statement: StatementModel,
    witness: WitnessModel,
    rho: RandomnessModel,
    state: Seq<u8>,
) -> Seq<u8> {
    let rounds = rounds(params, statement, witness, rho, state);
    product_argument::prover::proved_state(
        product_parameters(params, statement),
        product_statement(params, statement, rounds),
        product_witness(statement, rounds),
        rho.product,
        rounds.state,
    )
}

/// What the prover of the multi-exponentiation argument returns in the reduction.
pub open spec fn exponentiation_proving(
    params: ParametersModel,
    statement: StatementModel,
    witness: WitnessModel,
    rho: RandomnessModel,
    state: Seq<u8>,
) -> Result<multi_exponentiation_argument::verification::ProofModel, ErrorModel> {
    let rounds = rounds(params, statement, witness, rho, state);
    multi_exponentiation_argument::prover::proving(
        multi_exp_parameters(params),
        exponentiation_statement(params, statement, rounds),
        exponentiation_witness(statement, rho, rounds),
        rho.multi_exp,
        product_state(params, statement, witness, rho, state),
    )
}

/// What the prover returns for the given random values, for a transcript in the given state.
pub open spec fn proving(
    params: ParametersModel,
    statement: StatementModel,
    witness: WitnessModel,
    rho: RandomnessModel,
    state: Seq<u8>,
) -> Result<ProofModel, ErrorModel> {
    if early_failure(params, statement, witness, rho) is Some {
        Err(early_failure(params, statement, witness, rho)->Some_0)
    } else {
        match product_proving(params, statement, witness, rho, state) {
            Err(e) => Err(e),
            Ok(product_argument_proof) => match exponentiation_proving(
                params,
                statement,
                witness,
                rho,
                state,
            ) {
                Err(e) => Err(e),
                Ok(multi_exp_proof) => Ok(
                    ProofModel {
                        a_commits: rounds(params, statement, witness, rho, state).a_commits,
                        b_commits: rounds(params, statement, witness, rho, state).b_commits,
                        product_argument_proof,
                        multi_exp_proof,
                    },
                ),
            },
        }
    }
}

/// The state in which the prover leaves the transcript.
pub open spec fn proved_state(
    params: ParametersModel,
    statement: StatementModel,
    witness: WitnessModel,
    rho: RandomnessModel,
    state: Seq<u8>,
) -> Seq<u8> {
    if early_failure(params, statement, witness, rho) is Some {
        state
    } else if product_proving(params, statement, witness, rho, state) is Err {
        product_state(params, statement, witness, rho, state)
    } else {
        let rounds = rounds(params, statement, witness, rho, state);
        multi_exponentiation_argument::prover::proved_state(
            multi_exp_parameters(params),
            exponentiation_statement(params, statement, rounds),
            exponentiation_witness(statement, rho, rounds),
            rho.multi_exp,
            product_state(params, statement, witness, rho, state),
        )
    }
}

/// The model of what a prover returns.
pub open spec fn proof_outcome(r: Result<Proof, CryptoError>) -> Result<ProofModel, ErrorModel> {
    match r {
        Ok(p) => Ok(p@),
        Err(e) => Err(e@),
    }
}

/// Whether the random values have the dimensions that a prover draws them in, and are
/// reduced.
pub open spec fn drawn(statement: StatementModel, rho: RandomnessModel) -> bool {
    &&& rho.r.len() == statement.m
    &&& rho.s.len() == statement.m
    &&& reduced(rho.r)
    &&& reduced(rho.s)
    &&& product_argument::prover::drawn(statement.m, statement.n, rho.product)
    &&& multi_exponentiation_argument::prover::drawn(statement.m, statement.n, rho.multi_exp)
}

/// Whether a run of the prover that drew the random values `rho` returns `result` and leaves
/// the transcript in the state `after`.
pub open spec fn run_with(
    params: ParametersModel,
    statement: StatementModel,
    witness: WitnessModel,
    rho: RandomnessModel,
    state: Seq<u8>,
    result: Result<ProofModel, ErrorModel>,
    after: Seq<u8>,
) -> bool {
    &&& drawn(statement, rho)
    &&& result == proving(params, statement, witness, rho, state)
    &&& after == proved_state(params, statement, witness, rho, state)
}

impl Randomness {
    /// Draws the random values of a prover from the random number generator.
    pub fn sample(rng: &mut rand::rngs::StdRng, m: usize, n: usize) -> (r: Randomness)
        requires
            2 * m + 1 <= usize::MAX,
        ensures
            r@.r.len() == m,
            r@.s.len() == m,
            reduced(r@.r),
            reduced(r@.s),
            product_argument::prover::drawn(m as nat, n as nat, r@.product),
            multi_exponentiation_argument::prover::drawn(m as nat, n as nat, r@.multi_exp),
    {
        let r = sample_vector(rng, m);
        let s = sample_vector(rng, m);
        let product = product_argument::prover::Randomness::sample(rng, m, n);
        let multi_exp = multi_exponentiation_argument::prover::Randomness::sample(rng, m, n);
        let randomness = Randomness { r, s, product, multi_exp };
        assert(reduced(randomness@.r)) by {
            assert forall|i: int| 0 <= i < randomness@.r.len() implies #[trigger] randomness@.r[i]
                < order() by {
                assert(r@[i]@ < order());
            }
        }
        assert(reduced(randomness@.s)) by {
            assert forall|i: int| 0 <= i < randomness@.s.len() implies #[trigger] randomness@.s[i]
                < order() by {
                assert(s@[i]@ < order());
            }
        }
        randomness
    }
}

/// The commitments to the rows of a matrix, row `i` with the randomness `randoms[i]`.
pub(crate) fn commit_rows(commit_key: &CommitKey, matrix: &Vec<Vec<Scalar>>, randoms: &Vec<Scalar>, Ghost(n): Ghost<nat>) -> (r: Result<
    Vec<Commitment>,
    CryptoError,
>)
    requires
        has_shape(matrix_values(matrix@), matrix@.len(), n),
        randoms@.len() == matrix@.len(),
    ensures
        match r {
            Ok(commits) => (matrix@.len() == 0 || n <= commit_key@.g.len())
                && commitment_values(commits@) == Seq::new(
                matrix@.len(),
                |i: int|
                    commitment(commit_key@, matrix_values(matrix@)[i], scalar_values(randoms@)[i]),
            ),
            Err(e) => matrix@.len() > 0 && n > commit_key@.g.len() && e@
                == ErrorModel::CommitmentLength("Pedersen"@, n, commit_key@.g.len()),
        },
{
    let mut commits: Vec<Commitment> = Vec::new();
    let mut i: usize = 0;
    while i < matrix.len()
        invariant
            i <= matrix@.len(),
            has_shape(matrix_values(matrix@), matrix@.len(), n),
            randoms@.len() == matrix@.len(),
            i > 0 ==> n <= commit_key@.g.len(),
            commits@.len() == i,
            forall|k: int|
                0 <= k < i ==> (#[trigger] commits@[k])@ == commitment(
                    commit_key@,
                    matrix_values(matrix@)[k],
                    scalar_values(randoms@)[k],
                ),
        decreases matrix@.len() - i,
    {
        assert(matrix_values(matrix@)[i as int].len() == n);
        assert(matrix_values(matrix@)[i as int] == scalar_values(matrix@[i as int]@));
        assert(scalar_values(randoms@)[i as int] == randoms@[i as int]@);
        match PedersenCommitment::commit(commit_key, &matrix[i], randoms[i]) {
            Ok(c) => {
                commits.push(c);
            },
            Err(e) => {
                return Err(e);
            },
        }
        i = i + 1;
    }
    assert(commitment_values(commits@) =~= Seq::new(
        matrix@.len(),
        |i: int| commitment(commit_key@, matrix_values(matrix@)[i], scalar_values(randoms@)[i]),
    ));
    Ok(commits)
}

/// The prover of the shuffle argument.
pub struct Prover<'a> {
    parameters: &'a Parameters<'a>,
    statement: &'a Statement<'a>,
    witness: &'a Witness<'a>,
}

impl<'a> Prover<'a> {
    /// The prover for the given parameters, statement and witness.
    pub fn new(
        parameters: &'a Parameters<'a>,
        statement: &'a Statement<'a>,
        witness: &'a Witness<'a>,
    ) -> (r: Prover<'a>)
        ensures
            r.parameters() == parameters,
            r.statement() == statement,
            r.witness() == witness,
    {
        Prover { parameters, statement, witness }
    }

    /// The parameters that the prover was made with.
    pub closed spec fn parameters(&self) -> &'a Parameters<'a> {
        self.parameters
    }

    /// The statement that the prover was made with.
    pub closed spec fn statement(&self) -> &'a Statement<'a> {
        self.statement
    }

    /// The witness that the prover was made with.
    pub closed spec fn witness(&self) -> &'a Witness<'a> {
        self.witness
    }

    /// Proves the statement with the given random values.
    pub fn prove_with(&self, randomness: &Randomness, fs_rng: &mut Transcript) -> (r: Result<
        Proof,
        CryptoError,
    >)
        requires
            2 * self.statement().m + 1 <= usize::MAX,
            self.statement().input_ciphers@.len() < usize::MAX,
        ensures
            proof_outcome(r) == proving(
                self.parameters()@,
                self.statement()@,
                self.witness()@,
                randomness@,
                old(fs_rng)@,
            ),
            final(fs_rng)@ == proved_state(
                self.parameters()@,
                self.statement()@,
                self.witness()@,
                randomness@,
                old(fs_rng)@,
            ),
    {
        let m = self.statement.m;
        let n = self.statement.n;
        let ck = self.parameters.commit_key;
        let ghost params = self.parameters@;
        let ghost st = self.statement@;
        let ghost w = self.witness@;
        let ghost rho = randomness@;
        let ghost state = fs_rng@;
        let ghost rounds = rounds(params, st, w, rho, state);
        match self.statement.is_valid() {
            Ok(_) => {},
            Err(e) => {
                return Err(e);
            },
        }
        let number_of_ciphers = self.statement.input_ciphers.len();
        if self.witness.permutation.size() != number_of_ciphers {
            return Err(CryptoError::VectorCastingError(self.witness.permutation.size(), m, n));
        }
        if self.witness.rho.len() != number_of_ciphers {
            return Err(
                CryptoError::DotProductLengthError(self.witness.rho.len(), number_of_ciphers),
            );
        }
        if randomness.r.len() != m || randomness.s.len() != m {
            return Err(CryptoError::DotProductLengthError(randomness.r.len(), randomness.s.len()));
        }

        // Round 1: the permuted indices.
        let mut index: Vec<Scalar> = Vec::new();
        let mut i: usize = 0;
        while i < number_of_ciphers
            invariant
                i <= number_of_ciphers,
                index@.len() == i,
                forall|k: int| 0 <= k < i ==> (#[trigger] index@[k])@ == k + 1,
            decreases number_of_ciphers - i,
        {
            index.push(Scalar::from_u64((i + 1) as u64));
            i = i + 1;
        }
        let a = self.witness.permutation.permute_array(&index);
        assert(scalar_values(a@) =~= rounds.a) by {
            assert forall|k: int| 0 <= k < number_of_ciphers implies scalar_values(a@)[k]
                == rounds.a[k] by {
                let v = w.permutation[k];
                assert(v < w.permutation.len());
                assert(a@[k] == index@[v as int]);
            }
        }
        let a_chunks = scalar_rows_of(&a, m, n);
        let a_commits = match commit_rows(ck, &a_chunks, &randomness.r, Ghost(n as nat)) {
            Ok(c) => c,
            Err(e) => {
                return Err(e);
            },
        };
        assert(m > 0 && n > 0) by (nonlinear_arith)
            requires
                m * n == number_of_ciphers,
                number_of_ciphers > 0,
                m >= 0,
                n >= 0,
        ;
        assert(commitment_values(a_commits@) =~= rounds.a_commits);
        proof {
            assert(early_failure(params, st, w, rho) is None);
        }

        let x = first_challenge(self.parameters, self.statement, &a_commits, fs_rng);
        let challenge_powers = challenge_powers_of(x, number_of_ciphers);

        // Round 2: the permuted powers of the challenge.
        let b = self.witness.permutation.permute_array(&challenge_powers);
        assert(scalar_values(b@) =~= rounds.b) by {
            assert forall|k: int| 0 <= k < number_of_ciphers implies scalar_values(b@)[k]
                == rounds.b[k] by {
                let v = w.permutation[k];
                assert(v < w.permutation.len());
                assert(b@[k] == challenge_powers@[v as int]);
                assert(scalar_values(challenge_powers@)[v as int] == challenge_powers@[v as int]@);
            }
        }
        let b_chunks = scalar_rows_of(&b, m, n);
        let b_commits = match commit_rows(ck, &b_chunks, &randomness.s, Ghost(n as nat)) {
            Ok(c) => c,
            Err(e) => {
                assert(false);
                return Err(e);
            },
        };
        assert(commitment_values(b_commits@) =~= rounds.b_commits);

        let (y, z) = later_challenges(&b_commits, fs_rng);
        assert(y@ == rounds.y);
        assert(z@ == rounds.z);
        assert(fs_rng@ == rounds.state);

        let mut d_minus_z: Vec<Scalar> = Vec::new();
        let mut i: usize = 0;
        while i < number_of_ciphers
            invariant
                i <= number_of_ciphers,
                a@.len() == number_of_ciphers,
                b@.len() == number_of_ciphers,
                d_minus_z@.len() == i,
                forall|k: int|
                    0 <= k < i ==> (#[trigger] d_minus_z@[k])@ == fsub(
                        fadd(fmul(y@, a@[k]@), b@[k]@),
                        z@,
                    ),
            decreases number_of_ciphers - i,
        {
            d_minus_z.push(y.mul(&a[i]).add(&b[i]).sub(&z));
            i = i + 1;
        }
        assert(scalar_values(d_minus_z@) =~= rounds.d_minus_z);
        let mut t: Vec<Scalar> = Vec::new();
        let mut i: usize = 0;
        while i < m
            invariant
                i <= m,
                randomness.r@.len() == m,
                randomness.s@.len() == m,
                t@.len() == i,
                forall|k: int|
                    0 <= k < i ==> (#[trigger] t@[k])@ == fadd(
                        fmul(y@, randomness.r@[k]@),
                        randomness.s@[k]@,
                    ),
            decreases m - i,
        {
            t.push(y.mul(&randomness.r[i]).add(&randomness.s[i]));
            i = i + 1;
        }
        assert(scalar_values(t@) =~= rounds.t);

        // The product argument.
        let product_argument_parameters = product_argument::Parameters::new(m, n, ck);
        let d_minus_z_chunks = scalar_rows_of(&d_minus_z, m, n);
        let d_minus_z_commits = match commit_rows(ck, &d_minus_z_chunks, &t, Ghost(n as nat)) {
            Ok(c) => c,
            Err(e) => {
                assert(false);
                return Err(e);
            },
        };
        let mut claimed_product = Scalar::one();
        let mut i: usize = 0;
        while i < number_of_ciphers
            invariant
                i <= number_of_ciphers,
                d_minus_z@.len() == number_of_ciphers,
                claimed_product@ == product_of(scalar_values(d_minus_z@), i as nat),
            decreases number_of_ciphers - i,
        {
            claimed_product = claimed_product.mul(&d_minus_z[i]);
            i = i + 1;
        }
        let product_argument_statement = product_argument::Statement::new(
            &d_minus_z_commits,
            claimed_product,
        );
        let product_argument_witness = product_argument::Witness::new(&d_minus_z_chunks, &t);
        assert(product_argument_statement@.commitments_to_a =~= product_statement(
            params,
            st,
            rounds,
        ).commitments_to_a);
        assert(product_argument_statement@ == product_statement(params, st, rounds));
        assert(product_argument_witness@ == product_witness(st, rounds));
        let product_argument_prover = product_argument::prover::Prover::new(
            &product_argument_parameters,
            &product_argument_statement,
            &product_argument_witness,
        );
        let product_argument_proof = match product_argument_prover.prove_with(
            &randomness.product,
            fs_rng,
        ) {
            Ok(p) => p,
            Err(e) => {
                return Err(e);
            },
        };

        // The multi-exponentiation argument.
        let multi_exp_parameters = multi_exponentiation_argument::Parameters::new(
            self.parameters.encrypt_parameters,
            self.parameters.public_key,
            ck,
            self.parameters.generator,
        );
        let mut minus_rho_witness: Vec<Scalar> = Vec::new();
        let mut i: usize = 0;
        while i < number_of_ciphers
            invariant
                i <= number_of_ciphers,
                self.witness.rho@.len() == number_of_ciphers,
                minus_rho_witness@.len() == i,
                forall|k: int|
                    0 <= k < i ==> (#[trigger] minus_rho_witness@[k])@ == fneg(
                        self.witness.rho@[k]@,
                    ),
            decreases number_of_ciphers - i,
        {
            minus_rho_witness.push(self.witness.rho[i].neg());
            i = i + 1;
        }
        assert(scalar_values(minus_rho_witness@) =~= negated(w.rho));
        let masking = match dot_product(&minus_rho_witness, &b) {
            Ok(v) => v,
            Err(e) => {
                assert(false);
                return Err(e);
            },
        };
        assert(masking@ == rounds.rho);
        let temp = match Ciphertext::dot_product(&b, self.statement.shuffled_ciphers) {
            Ok(c) => c,
            Err(e) => {
                assert(false);
                return Err(e);
            },
        };
        let zero_cipher = Plaintext::zero();
        let masking_cipher = match ElGamal::encrypt(
            self.parameters.encrypt_parameters,
            self.parameters.public_key,
            &zero_cipher,
            &masking,
        ) {
            Ok(c) => c,
            Err(e) => {
                assert(false);
                return Err(e);
            },
        };
        let product = temp.add(&masking_cipher);
        let shuffled_chunks = cipher_rows_of(self.statement.shuffled_ciphers, m, n);
        let multi_exp_statement = multi_exponentiation_argument::Statement::new(
            &shuffled_chunks,
            product,
            &b_commits,
        );
        let multi_exp_witness = multi_exponentiation_argument::Witness::new(
            &b_chunks,
            &randomness.s,
            masking,
        );
        assert(multi_exp_statement@ == exponentiation_statement(params, st, rounds));
        assert(multi_exp_witness@ == exponentiation_witness(st, rho, rounds));
        let multi_exp_prover = multi_exponentiation_argument::prover::Prover::new(
            &multi_exp_parameters,
            &multi_exp_statement,
            &multi_exp_witness,
        );
        let multi_exp_proof = match multi_exp_prover.prove_with(&randomness.multi_exp, fs_rng) {
            Ok(p) => p,
            Err(e) => {
                return Err(e);
            },
        };

        Ok(Proof { a_commits, b_commits, product_argument_proof, multi_exp_proof })
    }

    /// Proves the statement, drawing the random values from the random number generator.
    pub fn prove(&self, rng: &mut rand::rngs::StdRng, fs_rng: &mut Transcript) -> (r: Result<
        Proof,
        CryptoError,
    >)
        requires
            2 * self.statement().m + 1 <= usize::MAX,
            self.statement().input_ciphers@.len() < usize::MAX,
        ensures
            exists|rho: RandomnessModel| #[trigger]
                run_with(
                    self.parameters()@,
                    self.statement()@,
                    self.witness()@,
                    rho,
                    old(fs_rng)@,
                    proof_outcome(r),
                    final(fs_rng)@,
                ),
    {
        let randomness = Randomness::sample(rng, self.statement.m, self.statement.n);
        let r = self.prove_with(&randomness, fs_rng);
        proof {
            assert(run_with(
                self.parameters()@,
                self.statement()@,
                self.witness()@,
                randomness@,
                old(fs_rng)@,
                proof_outcome(r),
                fs_rng@,
            ));
        }
        r
    }
}

} // verus!
