//! The prover of the multi-exponentiation argument.
use super::{
    column_count, derive_challenge, row_count, transcript, Parameters, ParametersModel, Statement,
    StatementModel, Witness, WitnessModel,
};
use super::verification::{Proof, ProofModel};
use crate::error::{CryptoError, ErrorModel};
use crate::field::{
    fmul, matrix_values, order, powers, reduced, scalar_values, weighted_sum, Scalar,
};
use crate::homomorphic_encryption::el_gamal::{
    cipher_sum, cipher_weighted_sum, ciphertext_rows, ciphertext_values, encryption, Ciphertext,
    ElGamal,
};
use crate::utils::random::sample_vector;
use crate::utils::vector_arithmetic::dot_product;
use crate::vector_commitment::pedersen::{
    commitment, commitment_values, Commitment, PedersenCommitment,
};
use crate::zkp::arguments::{
    cipher_shape_is, combination, has_shape, linear_combination, scalar_powers, shape_is,
    slice_of, with_entry,
};
use crate::zkp::arguments::zero_value_bilinear_map::prover::with_row_in_front;
use crate::zkp::transcript::{challenge, squeezed_state, Transcript};
use vstd::prelude::*;

verus! {

/// The random values that the prover draws: the extra row of exponents and the randomness of
/// the commitment to it, and for each diagonal an exponent, the randomness of the commitment
/// to it, and the randomness of its encryption.
pub struct Randomness {
    pub a_0: Vec<Scalar>,
    pub r_0: Scalar,
    pub b: Vec<Scalar>,
    pub s: Vec<Scalar>,
    pub tau: Vec<Scalar>,
}

/// The mathematical content of the random values.
pub struct RandomnessModel {
    pub a_0: Seq<nat>,
    pub r_0: nat,
    pub b: Seq<nat>,
    pub s: Seq<nat>,
    pub tau: Seq<nat>,
}

impl View for Randomness {
    type V = RandomnessModel;

    open spec fn view(&self) -> RandomnessModel {
        RandomnessModel {
            a_0: scalar_values(self.a_0@),
            r_0: self.r_0@,
            b: scalar_values(self.b@),
            s: scalar_values(self.s@),
            tau: scalar_values(self.tau@),
        }
    }
}

/// Whether the statement, the witness and the random values have matching dimensions: the
/// ciphertexts form `m` rows of `n`, with `m` at least one, and so do the exponents.
pub open spec fn valid_dimensions(
    statement: StatementModel,
    witness: WitnessModel,
    rho: RandomnessModel,
) -> bool {
    let m = row_count(statement);
    let n = column_count(statement);
    &&& m >= 1
    &&& has_shape(statement.shuffled_ciphers, m, n)
    &&& has_shape(witness.matrix_a, m, n)
    &&& witness.matrix_blinders.len() == m
    &&& rho.a_0.len() == n
    &&& rho.b.len() == 2 * m + 1
    &&& rho.s.len() == 2 * m + 1
    &&& rho.tau.len() == 2 * m + 1
}

/// The exponents of the diagonals: as drawn, but zero for diagonal `m`.
pub open spec fn exponents(m: nat, rho: RandomnessModel) -> Seq<nat> {
    rho.b.update(m as int, 0)
}

/// The randomness of the commitments to the exponents of the diagonals: as drawn, but zero
/// for diagonal `m`.
pub open spec fn exponent_randoms(m: nat, rho: RandomnessModel) -> Seq<nat> {
    rho.s.update(m as int, 0)
}

/// The randomness of the encryptions in the diagonals: as drawn, but that of the witness for
/// diagonal `m`.
pub open spec fn encryption_randoms(m: nat, witness: WitnessModel, rho: RandomnessModel) -> Seq<
    nat,
> {
    rho.tau.update(m as int, witness.rho)
}

/// The matrix of exponents with the random row in front.
pub open spec fn extended(witness: WitnessModel, rho: RandomnessModel) -> Seq<Seq<nat>> {
    seq![rho.a_0] + witness.matrix_a
}

/// The part of diagonal `k` that the first `upto` rows of ciphertexts contribute: row `i` of
/// the ciphertexts meets row `k + i + 1 - m` of the extended exponents.
pub open spec fn diagonal_partial(
    a: Seq<Seq<nat>>,
    rows: Seq<Seq<(nat, nat)>>,
    m: nat,
    n: nat,
    k: nat,
    upto: nat,
) -> (nat, nat)
    decreases upto,
{
    if upto == 0 {
        (0nat, 0nat)
    } else {
        let i = (upto - 1) as nat;
        let rest = diagonal_partial(a, rows, m, n, k, i);
        if k + i + 1 >= m && k + i + 1 - m <= m {
            cipher_sum(rest, cipher_weighted_sum(a[k + i + 1 - m], rows[i as int], n))
        } else {
            rest
        }
    }
}

/// Diagonal `k`: the encryption of the exponent of the diagonal, plus what the rows of
/// ciphertexts contribute.
pub open spec fn diagonal(
    params: ParametersModel,
    statement: StatementModel,
    witness: WitnessModel,
    rho: RandomnessModel,
    k: nat,
) -> (nat, nat) {
    let m = row_count(statement);
    cipher_sum(
        encryption(
            params.encrypt_parameters,
            params.public_key,
            fmul(exponents(m, rho)[k as int], params.generator),
            encryption_randoms(m, witness, rho)[k as int],
        ),
        diagonal_partial(
            extended(witness, rho),
            statement.shuffled_ciphers,
            m,
            column_count(statement),
            k,
            m,
        ),
    )
}

/// The `2m + 1` diagonals.
pub open spec fn diagonals(
    params: ParametersModel,
    statement: StatementModel,
    witness: WitnessModel,
    rho: RandomnessModel,
) -> Seq<(nat, nat)> {
    Seq::new(
        2 * row_count(statement) + 1,
        |k: int| diagonal(params, statement, witness, rho, k as nat),
    )
}

/// The commitments to the exponents of the diagonals.
pub open spec fn exponent_commitments(
    params: ParametersModel,
    statement: StatementModel,
    rho: RandomnessModel,
) -> Seq<nat> {
    let m = row_count(statement);
    Seq::new(
        2 * m + 1,
        |k: int|
            commitment(params.commit_key, seq![exponents(m, rho)[k]], exponent_randoms(m, rho)[k]),
    )
}

/// The proof that the prover gives on the challenge `x`.
pub open spec fn response(
    params: ParametersModel,
    statement: StatementModel,
    witness: WitnessModel,
    rho: RandomnessModel,
    x: nat,
) -> ProofModel {
    let m = row_count(statement);
    ProofModel {
        a_0_commit: commitment(params.commit_key, rho.a_0, rho.r_0),
        commit_b_k: exponent_commitments(params, statement, rho),
        vector_e_k: diagonals(params, statement, witness, rho),
        r_blinded: weighted_sum(powers(x, m + 1), seq![rho.r_0] + witness.matrix_blinders, m + 1),
        b_blinded: weighted_sum(powers(x, 2 * m + 1), exponents(m, rho), 2 * m + 1),
        s_blinded: weighted_sum(powers(x, 2 * m + 1), exponent_randoms(m, rho), 2 * m + 1),
        tau_blinded: weighted_sum(
            powers(x, 2 * m + 1),
            encryption_randoms(m, witness, rho),
            2 * m + 1,
        ),
        a_blinded: combination(powers(x, m + 1), extended(witness, rho), column_count(statement)),
    }
}

/// The state of the transcript when the prover squeezes the challenge.
pub open spec fn proving_transcript(
    params: ParametersModel,
    statement: StatementModel,
    witness: WitnessModel,
    rho: RandomnessModel,
    state: Seq<u8>,
) -> Seq<u8> {
    transcript(
        params,
        statement,
        commitment(params.commit_key, rho.a_0, rho.r_0),
        exponent_commitments(params, statement, rho),
        diagonals(params, statement, witness, rho),
        state,
    )
}

/// What the prover returns for the given random values, for a transcript in the given state.
pub open spec fn proving(
    params: ParametersModel,
    statement: StatementModel,
    witness: WitnessModel,
    rho: RandomnessModel,
    state: Seq<u8>,
) -> Result<ProofModel, ErrorModel> {
    if !valid_dimensions(statement, witness, rho) {
        Err(ErrorModel::DiagonalLength(witness.matrix_a.len(), row_count(statement)))
    } else if column_count(statement) > params.commit_key.g.len() {
        Err(
            ErrorModel::CommitmentLength(
                "Pedersen"@,
                column_count(statement),
                params.commit_key.g.len(),
            ),
        )
    } else if params.commit_key.g.len() < 1 {
        Err(ErrorModel::CommitmentLength("Pedersen"@, 1, 0))
    } else {
        Ok(
            response(
                params,
                statement,
                witness,
                rho,
                challenge(proving_transcript(params, statement, witness, rho, state)),
            ),
        )
    }
}

/// The state in which the prover leaves the transcript.
pub open spec fn proved_state(
    params: ParametersModel,
    statement: StatementModel,
    witness: WitnessModel,
    rho: RandomnessModel,
    state: Seq<u8>,
) -> Seq<u8> {
    if proving(params, statement, witness, rho, state) is Err {
        state
    } else {
        squeezed_state(proving_transcript(params, statement, witness, rho, state))
    }
}

/// The model of what a prover returns.
pub open spec fn proof_outcome(r: Result<Proof, CryptoError>) -> Result<ProofModel, ErrorModel> {
    match r {
        Ok(p) => Ok(p@),
        Err(e) => Err(e@),
    }
}

/// Whether the random values have the dimensions that a prover draws them in for `m` rows of
/// `n` ciphertexts, and are reduced.
pub open spec fn drawn(m: nat, n: nat, rho: RandomnessModel) -> bool {
    &&& rho.a_0.len() == n
    &&& rho.b.len() == 2 * m + 1
    &&& rho.s.len() == 2 * m + 1
    &&& rho.tau.len() == 2 * m + 1
    &&& reduced(rho.a_0)
    &&& reduced(rho.b)
    &&& reduced(rho.s)
    &&& reduced(rho.tau)
    &&& rho.r_0 < order()
}

/// Whether a run of the prover that drew the random values `rho` returns `result` and leaves
/// the transcript in the state `after`.
pub open spec fn run_with(
    params: ParametersModel,
    statement: StatementModel,
    witness: WitnessModel,
    rho: RandomnessModel,
    state: Seq<u8>,
    result: Result<ProofModel, ErrorModel>,
    after: Seq<u8>,
) -> bool {
    &&& row_count(statement) >= 1 ==> drawn(row_count(statement), column_count(statement), rho)
    &&& result == proving(params, statement, witness, rho, state)
    &&& after == proved_state(params, statement, witness, rho, state)
}

impl Randomness {
    /// Draws the random values of a prover from the random number generator.
    pub fn sample(rng: &mut rand::rngs::StdRng, m: usize, n: usize) -> (r: Randomness)
        requires
            2 * m + 1 <= usize::MAX,
        ensures
            drawn(m as nat, n as nat, r@),
    {
        let a_0 = sample_vector(rng, n);
        let r_0 = Scalar::rand(rng);
        let b = sample_vector(rng, 2 * m + 1);
        let s = sample_vector(rng, 2 * m + 1);
        let tau = sample_vector(rng, 2 * m + 1);
        Randomness { a_0, r_0, b, s, tau }
    }
}

/// The prover of the multi-exponentiation argument.
pub struct Prover<'a> {
    parameters: &'a Parameters<'a>,
    statement: &'a Statement<'a>,
    witness: &'a Witness<'a>,
}

/// What the rows of ciphertexts contribute to diagonal `k`.
fn diagonal_of(a: &Vec<Vec<Scalar>>, rows: &Vec<Vec<Ciphertext>>, m: usize, n: usize, k: usize) -> (d: Ciphertext)
    requires
        has_shape(matrix_values(a@), (m + 1) as nat, n as nat),
        has_shape(ciphertext_rows(rows@), m as nat, n as nat),
        k <= 2 * m,
        2 * m + 1 <= usize::MAX,
    ensures
        d@ == diagonal_partial(
            matrix_values(a@),
            ciphertext_rows(rows@),
            m as nat,
            n as nat,
            k as nat,
            m as nat,
        ),
{
    let mut d = Ciphertext::zero();
    let mut i: usize = 0;
    while i < m
        invariant
            i <= m,
            has_shape(matrix_values(a@), (m + 1) as nat, n as nat),
            has_shape(ciphertext_rows(rows@), m as nat, n as nat),
            k <= 2 * m,
            2 * m + 1 <= usize::MAX,
            d@ == diagonal_partial(
                matrix_values(a@),
                ciphertext_rows(rows@),
                m as nat,
                n as nat,
                k as nat,
                i as nat,
            ),
        decreases m - i,
    {
        let meets: Option<usize> = if k >= m {
            if i + 1 + (k - m) <= m {
                Some(i + 1 + (k - m))
            } else {
                None
            }
        } else {
            if i + 1 >= m - k {
                Some(i + 1 - (m - k))
            } else {
                None
            }
        };
        match meets {
            Some(j) => {
                assert(j == k + i + 1 - m);
                assert(matrix_values(a@)[j as int].len() == n);
                assert(ciphertext_rows(rows@)[i as int].len() == n);
                assert(matrix_values(a@)[j as int] == scalar_values(a@[j as int]@));
                assert(ciphertext_rows(rows@)[i as int] == ciphertext_values(rows@[i as int]@));
                match Ciphertext::dot_product(&a[j], &rows[i]) {
                    Ok(term) => {
                        d = d.add(&term);
                    },
                    Err(_) => {
                        assert(false);
                    },
                }
            },
            None => {
                assert(!(k + i + 1 >= m && k + i + 1 - m <= m));
            },
        }
        i = i + 1;
    }
    d
}

impl<'a> Prover<'a> {
    /// The prover for the given parameters, statement and witness.
    pub fn new(
        parameters: &'a Parameters<'a>,
        statement: &'a Statement<'a>,
        witness: &'a Witness<'a>,
    ) -> (r: Prover<'a>)
        ensures
            r.parameters() == parameters,
            r.statement() == statement,
            r.witness() == witness,
    {
        Prover { parameters, statement, witness }
    }

    /// The parameters that the prover was made with.
    pub closed spec fn parameters(&self) -> &'a Parameters<'a> {
        self.parameters
    }

    /// The statement that the prover was made with.
    pub closed spec fn statement(&self) -> &'a Statement<'a> {
        self.statement
    }

    /// The witness that the prover was made with.
    pub closed spec fn witness(&self) -> &'a Witness<'a> {
        self.witness
    }

    /// Whether the statement, the witness and the random values have matching dimensions.
    fn dimensions_are_valid(&self, randomness: &Randomness) -> (r: bool)
        requires
            2 * self.statement.shuffled_ciphers@.len() + 1 <= usize::MAX,
        ensures
            r == valid_dimensions(self.statement@, self.witness@, randomness@),
    {
        let m = self.statement.shuffled_ciphers.len();
        if m < 1 {
            return false;
        }
        let n = self.statement.shuffled_ciphers[0].len();
        assert(n == column_count(self.statement@));
        cipher_shape_is(self.statement.shuffled_ciphers, m, n) && shape_is(
            self.witness.matrix_a,
            m,
            n,
        ) && self.witness.matrix_blinders.len() == m && randomness.a_0.len() == n
            && randomness.b.len() == 2 * m + 1 && randomness.s.len() == 2 * m + 1
            && randomness.tau.len() == 2 * m + 1
    }

    /// The commitments to the exponents of the diagonals, and the diagonals.
    fn first_message(
        &self,
        rows_a: &Vec<Vec<Scalar>>,
        exponents: &Vec<Scalar>,
        exponent_randoms: &Vec<Scalar>,
        encryption_randoms: &Vec<Scalar>,
        Ghost(rho): Ghost<RandomnessModel>,
    ) -> (r: (Vec<Commitment>, Vec<Ciphertext>))
        requires
            2 * self.statement.shuffled_ciphers@.len() + 1 <= usize::MAX,
            valid_dimensions(self.statement@, self.witness@, rho),
            self.parameters@.commit_key.g.len() >= 1,
            matrix_values(rows_a@) == extended(self.witness@, rho),
            scalar_values(exponents@) == super::prover::exponents(row_count(self.statement@), rho),
            scalar_values(exponent_randoms@) == super::prover::exponent_randoms(
                row_count(self.statement@),
                rho,
            ),
            scalar_values(encryption_randoms@) == super::prover::encryption_randoms(
                row_count(self.statement@),
                self.witness@,
                rho,
            ),
        ensures
            commitment_values(r.0@) == exponent_commitments(self.parameters@, self.statement@, rho),
            ciphertext_values(r.1@) == diagonals(
                self.parameters@,
                self.statement@,
                self.witness@,
                rho,
            ),
    {
        let m = self.statement.shuffled_ciphers.len();
        let n = self.statement.shuffled_ciphers[0].len();
        let ghost st = self.statement@;
        let ghost w = self.witness@;
        assert(n == column_count(st));
        assert(has_shape(matrix_values(rows_a@), (m + 1) as nat, n as nat)) by {
            assert forall|k: int| 0 <= k < m + 1 implies (#[trigger] matrix_values(rows_a@)[k]).len()
                == n by {
                if k > 0 {
                    assert(w.matrix_a[k - 1].len() == n);
                }
            }
        }
        let mut commit_b_k: Vec<Commitment> = Vec::new();
        let mut vector_e_k: Vec<Ciphertext> = Vec::new();
        let mut k: usize = 0;
        while k < 2 * m + 1
            invariant
                k <= 2 * m + 1,
                2 * m + 1 <= usize::MAX,
                m == self.statement.shuffled_ciphers@.len(),
                n == column_count(st),
                st == self.statement@,
                w == self.witness@,
                m == row_count(st),
                self.parameters@.commit_key.g.len() >= 1,
                valid_dimensions(st, w, rho),
                has_shape(matrix_values(rows_a@), (m + 1) as nat, n as nat),
                matrix_values(rows_a@) == extended(w, rho),
                scalar_values(exponents@) == super::prover::exponents(m as nat, rho),
                scalar_values(exponent_randoms@) == super::prover::exponent_randoms(m as nat, rho),
                scalar_values(encryption_randoms@) == super::prover::encryption_randoms(
                    m as nat,
                    w,
                    rho,
                ),
                commit_b_k@.len() == k,
                vector_e_k@.len() == k,
                forall|c: int|
                    0 <= c < k ==> (#[trigger] commit_b_k@[c])@ == commitment(
                        self.parameters@.commit_key,
                        seq![super::prover::exponents(m as nat, rho)[c]],
                        super::prover::exponent_randoms(m as nat, rho)[c],
                    ),
                forall|c: int|
                    0 <= c < k ==> (#[trigger] vector_e_k@[c])@ == diagonal(
                        self.parameters@,
                        st,
                        w,
                        rho,
                        c as nat,
                    ),
            decreases 2 * m + 1 - k,
        {
            assert(exponents@.len() == 2 * m + 1) by {
                assert(scalar_values(exponents@).len() == 2 * m + 1);
            }
            assert(exponent_randoms@.len() == 2 * m + 1) by {
                assert(scalar_values(exponent_randoms@).len() == 2 * m + 1);
            }
            assert(encryption_randoms@.len() == 2 * m + 1) by {
                assert(scalar_values(encryption_randoms@).len() == 2 * m + 1);
            }
            assert(scalar_values(exponents@)[k as int] == exponents@[k as int]@);
            assert(scalar_values(exponent_randoms@)[k as int] == exponent_randoms@[k as int]@);
            assert(scalar_values(encryption_randoms@)[k as int] == encryption_randoms@[k as int]@);
            let mut single: Vec<Scalar> = Vec::new();
            single.push(exponents[k]);
            assert(scalar_values(single@) =~= seq![exponents@[k as int]@]);
            match PedersenCommitment::commit(
                self.parameters.commit_key,
                &single,
                exponent_randoms[k],
            ) {
                Ok(c) => {
                    commit_b_k.push(c);
                },
                Err(_) => {
                    assert(false);
                },
            }
            let message = self.parameters.generator.mul(&exponents[k]);
            let crossing = diagonal_of(rows_a, self.statement.shuffled_ciphers, m, n, k);
            match ElGamal::encrypt(
                self.parameters.encrypt_parameters,
                self.parameters.public_key,
                &message,
                &encryption_randoms[k],
            ) {
                Ok(mask) => {
                    vector_e_k.push(mask.add(&crossing));
                },
                Err(_) => {
                    assert(false);
                },
            }
            k = k + 1;
        }
        assert(commitment_values(commit_b_k@) =~= exponent_commitments(
            self.parameters@,
            st,
            rho,
        ));
        assert(ciphertext_values(vector_e_k@) =~= diagonals(self.parameters@, st, w, rho));
        (commit_b_k, vector_e_k)
    }

    /// Proves the statement with the given random values.
    pub fn prove_with(&self, randomness: &Randomness, fs_rng: &mut Transcript) -> (r: Result<
        Proof,
        CryptoError,
    >)
        requires
            2 * self.statement().shuffled_ciphers@.len() + 1 <= usize::MAX,
        ensures
            proof_outcome(r) == proving(
                self.parameters()@,
                self.statement()@,
                self.witness()@,
                randomness@,
                old(fs_rng)@,
            ),
            final(fs_rng)@ == proved_state(
                self.parameters()@,
                self.statement()@,
                self.witness()@,
                randomness@,
                old(fs_rng)@,
            ),
    {
        if !self.dimensions_are_valid(randomness) {
            return Err(
                CryptoError::DiagonalLengthError(
                    self.witness.matrix_a.len(),
                    self.statement.shuffled_ciphers.len(),
                ),
            );
        }
        let m = self.statement.shuffled_ciphers.len();
        let n = self.statement.shuffled_ciphers[0].len();
        let ghost rho = randomness@;
        let ghost w = self.witness@;
        assert(n == column_count(self.statement@));
        let a_0_commit = match PedersenCommitment::commit(
            self.parameters.commit_key,
            &randomness.a_0,
            randomness.r_0,
        ) {
            Ok(c) => c,
            Err(e) => {
                return Err(e);
            },
        };
        if self.parameters.commit_key.len() < 1 {
            return Err(CryptoError::CommitmentLengthError("Pedersen".to_owned(), 1, 0));
        }
        let exponents = with_entry(&randomness.b, m, Scalar::zero());
        let exponent_randoms = with_entry(&randomness.s, m, Scalar::zero());
        let encryption_randoms = with_entry(&randomness.tau, m, self.witness.rho);
        let rows_a = with_row_in_front(&randomness.a_0, self.witness.matrix_a);
        assert(matrix_values(rows_a@) == extended(w, rho));
        let (commit_b_k, vector_e_k) = self.first_message(
            &rows_a,
            &exponents,
            &exponent_randoms,
            &encryption_randoms,
            Ghost(rho),
        );

        let x = derive_challenge(
            self.parameters,
            self.statement,
            &a_0_commit,
            &commit_b_k,
            &vector_e_k,
            fs_rng,
        );

        let challenge_powers = scalar_powers(x, 2 * m);
        let rising = slice_of(&challenge_powers, 0, m + 1);
        proof {
            let all = powers(x@, (2 * m + 1) as nat);
            assert(scalar_values(challenge_powers@) == all);
            assert(scalar_values(rising@) =~= all.subrange(0, m + 1));
            assert(all.subrange(0, m + 1) =~= powers(x@, (m + 1) as nat));
            assert(has_shape(matrix_values(rows_a@), (m + 1) as nat, n as nat)) by {
                assert forall|k: int| 0 <= k < m + 1 implies (#[trigger] matrix_values(
                    rows_a@,
                )[k]).len() == n by {
                    if k > 0 {
                        assert(w.matrix_a[k - 1].len() == n);
                    }
                }
            }
        }
        let a_blinded = linear_combination(&rising, &rows_a, n);

        let mut blinders: Vec<Scalar> = Vec::new();
        blinders.push(randomness.r_0);
        let mut i: usize = 0;
        while i < m
            invariant
                i <= m,
                self.witness.matrix_blinders@.len() == m,
                blinders@ == seq![randomness.r_0] + self.witness.matrix_blinders@.take(i as int),
            decreases m - i,
        {
            blinders.push(self.witness.matrix_blinders[i]);
            i = i + 1;
            assert(blinders@ =~= seq![randomness.r_0] + self.witness.matrix_blinders@.take(
                i as int,
            ));
        }
        assert(self.witness.matrix_blinders@.take(m as int) == self.witness.matrix_blinders@);
        assert(scalar_values(blinders@) =~= seq![rho.r_0] + w.matrix_blinders);

        let r_blinded = match dot_product(&rising, &blinders) {
            Ok(v) => v,
            Err(e) => {
                assert(false);
                return Err(e);
            },
        };
        assert(scalar_values(exponents@).len() == 2 * m + 1);
        assert(scalar_values(exponent_randoms@).len() == 2 * m + 1);
        assert(scalar_values(encryption_randoms@).len() == 2 * m + 1);
        let b_blinded = match dot_product(&challenge_powers, &exponents) {
            Ok(v) => v,
            Err(e) => {
                assert(false);
                return Err(e);
            },
        };
        let s_blinded = match dot_product(&challenge_powers, &exponent_randoms) {
            Ok(v) => v,
            Err(e) => {
                assert(false);
                return Err(e);
            },
        };
        let tau_blinded = match dot_product(&challenge_powers, &encryption_randoms) {
            Ok(v) => v,
            Err(e) => {
                assert(false);
                return Err(e);
            },
        };

        Ok(
            Proof {
                a_0_commit,
                commit_b_k,
                vector_e_k,
                r_blinded,
                b_blinded,
                s_blinded,
                tau_blinded,
                a_blinded,
            },
        )
    }

    /// Proves the statement, drawing the random values from the random number generator.
    pub fn prove(&self, rng: &mut rand::rngs::StdRng, fs_rng: &mut Transcript) -> (r: Result<
        Proof,
        CryptoError,
    >)
        requires
            2 * self.statement().shuffled_ciphers@.len() + 1 <= usize::MAX,
        ensures
            exists|rho: RandomnessModel| #[trigger]
                run_with(
                    self.parameters()@,
                    self.statement()@,
                    self.witness()@,
                    rho,
                    old(fs_rng)@,
                    proof_outcome(r),
                    final(fs_rng)@,
                ),
    {
        let m = self.statement.shuffled_ciphers.len();
        let n = if m >= 1 {
            self.statement.shuffled_ciphers[0].len()
        } else {
            0
        };
        let randomness = Randomness::sample(rng, m, n);
        let r = self.prove_with(&randomness, fs_rng);
        proof {
            assert(run_with(
                self.parameters()@,
                self.statement()@,
                self.witness()@,
                randomness@,
                old(fs_rng)@,
                proof_outcome(r),
                fs_rng@,
            ));
        }
        r
    }
}

} // verus!
