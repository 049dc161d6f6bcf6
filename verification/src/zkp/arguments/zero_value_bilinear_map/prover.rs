//! The prover of the zero-value argument.
use super::{
    y_weighted, Parameters, ParametersModel, Statement, StatementModel, Witness, WitnessModel,
    YMapping,
};
use super::verification::{derive_challenge, transcript, Proof, ProofModel};
use crate::error::{CryptoError, ErrorModel};
use crate::field::{
    fadd, matrix_values, order, powers, reduced, scalar_values, weighted_sum, Scalar,
};
use crate::utils::random::sample_vector;
use crate::utils::vector_arithmetic::dot_product;
use crate::vector_commitment::pedersen::{
    commitment, commitment_values, Commitment, PedersenCommitment,
};
use crate::zkp::arguments::{
    combination, copy_of, descending_powers, has_shape, linear_combination, reversed,
    scalar_powers, shape_is, slice_of,
};
use crate::zkp::transcript::{challenge, squeezed_state, Transcript};
use vstd::prelude::*;

verus! {

/// The random values that the prover draws: the extra rows, the randomness of their
/// commitments, and the randomness of the commitments to the diagonals.
pub struct Randomness {
    pub a_0: Vec<Scalar>,
    pub b_m: Vec<Scalar>,
    pub r_0: Scalar,
    pub s_m: Scalar,
    pub t: Vec<Scalar>,
}

/// The mathematical content of the random values.
pub struct RandomnessModel {
    pub a_0: Seq<nat>,
    pub b_m: Seq<nat>,
    pub r_0: nat,
    pub s_m: nat,
    pub t: Seq<nat>,
}

impl View for Randomness {
    type V = RandomnessModel;

    open spec fn view(&self) -> RandomnessModel {
        RandomnessModel {
            a_0: scalar_values(self.a_0@),
            b_m: scalar_values(self.b_m@),
            r_0: self.r_0@,
            s_m: self.s_m@,
            t: scalar_values(self.t@),
        }
    }
}

/// Whether the witness and the random values have the dimensions of the parameters.
pub open spec fn valid_dimensions(
    params: ParametersModel,
    statement: StatementModel,
    witness: WitnessModel,
    rho: RandomnessModel,
) -> bool {
    &&& params.m >= 1
    &&& statement.bilinear_map.n == params.n
    &&& has_shape(witness.matrix_a, params.m, params.n)
    &&& has_shape(witness.matrix_b, params.m, params.n)
    &&& witness.randoms_for_a_commit.len() == params.m
    &&& witness.randoms_for_b_commit.len() == params.m
    &&& rho.a_0.len() == params.n
    &&& rho.b_m.len() == params.n
    &&& rho.t.len() == 2 * params.m + 1
}

/// The matrix A with the random row in front.
pub open spec fn extended_a(witness: WitnessModel, rho: RandomnessModel) -> Seq<Seq<nat>> {
    seq![rho.a_0] + witness.matrix_a
}

/// The matrix B with the random row at the end.
pub open spec fn extended_b(witness: WitnessModel, rho: RandomnessModel) -> Seq<Seq<nat>> {
    witness.matrix_b.push(rho.b_m)
}

/// The randomness of the commitments to the diagonals: as drawn, but zero for diagonal
/// `m + 1`.
pub open spec fn masks(m: nat, rho: RandomnessModel) -> Seq<nat> {
    rho.t.update(m as int + 1, 0)
}

/// The part of diagonal `k` that the first `upto` rows of the first matrix contribute: the sum
/// of the maps of row `i` of the first matrix and row `i + m - k` of the second.
pub open spec fn diagonal_partial(
    y: nat,
    a: Seq<Seq<nat>>,
    b: Seq<Seq<nat>>,
    m: nat,
    n: nat,
    k: nat,
    upto: nat,
) -> nat
    decreases upto,
{
    if upto == 0 {
        0
    } else {
        let i = (upto - 1) as nat;
        let rest = diagonal_partial(y, a, b, m, n, k, i);
        if k <= i + m && i + m - k <= m {
            fadd(rest, y_weighted(y, a[i as int], b[i + m - k], n))
        } else {
            rest
        }
    }
}

/// Diagonal `k` of the two extended matrices, each of `m + 1` rows.
pub open spec fn diagonal(y: nat, a: Seq<Seq<nat>>, b: Seq<Seq<nat>>, m: nat, n: nat, k: nat) -> nat {
    diagonal_partial(y, a, b, m, n, k, m + 1)
}

/// The commitments to the `2m + 1` diagonals.
pub open spec fn committed_diagonals(
    params: ParametersModel,
    statement: StatementModel,
    witness: WitnessModel,
    rho: RandomnessModel,
) -> Seq<nat> {
    Seq::new(
        2 * params.m + 1,
        |k: int|
            commitment(
                params.commit_key,
                seq![
                    diagonal(
                        statement.bilinear_map.y,
                        extended_a(witness, rho),
                        extended_b(witness, rho),
                        params.m,
                        params.n,
                        k as nat,
                    ),
                ],
                masks(params.m, rho)[k],
            ),
    )
}

/// The proof that the prover gives on the challenge `x`.
pub open spec fn response(
    params: ParametersModel,
    statement: StatementModel,
    witness: WitnessModel,
    rho: RandomnessModel,
    x: nat,
) -> ProofModel {
    let m = params.m;
    ProofModel {
        a_0_commit: commitment(params.commit_key, rho.a_0, rho.r_0),
        b_m_commit: commitment(params.commit_key, rho.b_m, rho.s_m),
        vector_of_committed_diagonals: committed_diagonals(params, statement, witness, rho),
        a_blinded: combination(powers(x, m + 1), extended_a(witness, rho), params.n),
        b_blinded: combination(descending_powers(x, m + 1), extended_b(witness, rho), params.n),
        r_blinded: weighted_sum(
            powers(x, m + 1),
            seq![rho.r_0] + witness.randoms_for_a_commit,
            m + 1,
        ),
        s_blinded: weighted_sum(
            descending_powers(x, m + 1),
            witness.randoms_for_b_commit.push(rho.s_m),
            m + 1,
        ),
        t_blinded: weighted_sum(powers(x, 2 * m + 1), masks(m, rho), 2 * m + 1),
    }
}

/// The state of the transcript when the prover squeezes the challenge.
pub open spec fn proving_transcript(
    params: ParametersModel,
    statement: StatementModel,
    witness: WitnessModel,
    rho: RandomnessModel,
    state: Seq<u8>,
) -> Seq<u8> {
    transcript(
        params,
        statement,
        commitment(params.commit_key, rho.a_0, rho.r_0),
        commitment(params.commit_key, rho.b_m, rho.s_m),
        committed_diagonals(params, statement, witness, rho),
        state,
    )
}

/// What the prover returns for the given random values, for a transcript in the given state.
pub open spec fn proving(
    params: ParametersModel,
    statement: StatementModel,
    witness: WitnessModel,
    rho: RandomnessModel,
    state: Seq<u8>,
) -> Result<ProofModel, ErrorModel> {
    if !valid_dimensions(params, statement, witness, rho) {
        Err(ErrorModel::DiagonalLength(witness.matrix_a.len(), witness.matrix_b.len()))
    } else if params.n > params.commit_key.g.len() {
        Err(ErrorModel::CommitmentLength("Pedersen"@, params.n, params.commit_key.g.len()))
    } else if params.commit_key.g.len() < 1 {
        Err(ErrorModel::CommitmentLength("Pedersen"@, 1, 0))
    } else {
        Ok(
            response(
                params,
                statement,
                witness,
                rho,
                challenge(proving_transcript(params, statement, witness, rho, state)),
            ),
        )
    }
}

/// The state in which the prover leaves the transcript.
pub open spec fn proved_state(
    params: ParametersModel,
    statement: StatementModel,
    witness: WitnessModel,
    rho: RandomnessModel,
    state: Seq<u8>,
) -> Seq<u8> {
    if proving(params, statement, witness, rho, state) is Err {
        state
    } else {
        squeezed_state(proving_transcript(params, statement, witness, rho, state))
    }
}

/// The model of what a prover returns.
pub open spec fn proof_outcome(r: Result<Proof, CryptoError>) -> Result<ProofModel, ErrorModel> {
    match r {
        Ok(p) => Ok(p@),
        Err(e) => Err(e@),
    }
}

/// Whether a run of the prover that drew the random values `rho` returns `result` and leaves
/// the transcript in the state `after`.
pub open spec fn run_with(
    params: ParametersModel,
    statement: StatementModel,
    witness: WitnessModel,
    rho: RandomnessModel,
    state: Seq<u8>,
    result: Result<ProofModel, ErrorModel>,
    after: Seq<u8>,
) -> bool {
    &&& rho.a_0.len() == params.n
    &&& rho.b_m.len() == params.n
    &&& rho.t.len() == 2 * params.m + 1
    &&& reduced(rho.a_0)
    &&& reduced(rho.b_m)
    &&& reduced(rho.t)
    &&& rho.r_0 < order()
    &&& rho.s_m < order()
    &&& result == proving(params, statement, witness, rho, state)
    &&& after == proved_state(params, statement, witness, rho, state)
}

/// The prover of the zero-value argument.
pub struct Prover<'a> {
    parameters: &'a Parameters<'a>,
    statement: &'a Statement<'a>,
    witness: &'a Witness<'a>,
}

/// The rows of a matrix with one more row in front.
pub fn with_row_in_front(first: &Vec<Scalar>, rows: &Vec<Vec<Scalar>>) -> (r: Vec<Vec<Scalar>>)
    ensures
        matrix_values(r@) == seq![scalar_values(first@)] + matrix_values(rows@),
{
    let mut r: Vec<Vec<Scalar>> = Vec::new();
    r.push(copy_of(first));
    let mut i: usize = 0;
    while i < rows.len()
        invariant
            i <= rows@.len(),
            r@.len() == i + 1,
            r@[0]@ == first@,
            forall|k: int| 1 <= k <= i ==> (#[trigger] r@[k])@ == rows@[k - 1]@,
        decreases rows@.len() - i,
    {
        r.push(copy_of(&rows[i]));
        i = i + 1;
    }
    assert(matrix_values(r@) =~= seq![scalar_values(first@)] + matrix_values(rows@));
    r
}

/// The rows of a matrix with one more row at the end.
pub fn with_row_at_end(rows: &Vec<Vec<Scalar>>, last: &Vec<Scalar>) -> (r: Vec<Vec<Scalar>>)
    ensures
        matrix_values(r@) == matrix_values(rows@).push(scalar_values(last@)),
{
    let mut r: Vec<Vec<Scalar>> = Vec::new();
    let mut i: usize = 0;
    while i < rows.len()
        invariant
            i <= rows@.len(),
            r@.len() == i,
            forall|k: int| 0 <= k < i ==> (#[trigger] r@[k])@ == rows@[k]@,
        decreases rows@.len() - i,
    {
        r.push(copy_of(&rows[i]));
        i = i + 1;
    }
    r.push(copy_of(last));
    assert(matrix_values(r@) =~= matrix_values(rows@).push(scalar_values(last@)));
    r
}

/// Diagonal `k` of two matrices of `m + 1` rows of `n` entries each.
fn diagonal_of(mapping: &YMapping, a: &Vec<Vec<Scalar>>, b: &Vec<Vec<Scalar>>, m: usize, k: usize) -> (d: Scalar)
    requires
        has_shape(matrix_values(a@), (m + 1) as nat, mapping@.n),
        has_shape(matrix_values(b@), (m + 1) as nat, mapping@.n),
        k <= 2 * m,
        2 * m + 1 <= usize::MAX,
    ensures
        d@ == diagonal(mapping@.y, matrix_values(a@), matrix_values(b@), m as nat, mapping@.n, k as nat),
{
    let mut d = Scalar::zero();
    let mut i: usize = 0;
    while i <= m
        invariant
            i <= m + 1,
            has_shape(matrix_values(a@), (m + 1) as nat, mapping@.n),
            has_shape(matrix_values(b@), (m + 1) as nat, mapping@.n),
            k <= 2 * m,
            2 * m + 1 <= usize::MAX,
            d@ == diagonal_partial(
                mapping@.y,
                matrix_values(a@),
                matrix_values(b@),
                m as nat,
                mapping@.n,
                k as nat,
                i as nat,
            ),
        decreases m + 1 - i,
    {
        if k <= i + m && i + m - k <= m {
            let j = i + m - k;
            assert(matrix_values(a@)[i as int].len() == mapping@.n);
            assert(matrix_values(b@)[j as int].len() == mapping@.n);
            match mapping.compute_mapping(&a[i], &b[j]) {
                Ok(v) => {
                    d = d.add(&v);
                },
                Err(_) => {
                    assert(false);
                },
            }
        }
        i = i + 1;
    }
    d
}

impl<'a> Prover<'a> {
    /// The prover for the given parameters, statement and witness.
    pub fn new(
        parameters: &'a Parameters<'a>,
        statement: &'a Statement<'a>,
        witness: &'a Witness<'a>,
    ) -> (r: Prover<'a>)
        ensures
            r.parameters() == parameters,
            r.statement() == statement,
            r.witness() == witness,
    {
        Prover { parameters, statement, witness }
    }

    /// The parameters that the prover was made with.
    pub closed spec fn parameters(&self) -> &'a Parameters<'a> {
        self.parameters
    }

    /// The statement that the prover was made with.
    pub closed spec fn statement(&self) -> &'a Statement<'a> {
        self.statement
    }

    /// The witness that the prover was made with.
    pub closed spec fn witness(&self) -> &'a Witness<'a> {
        self.witness
    }

    /// Whether the witness and the random values have the dimensions of the parameters.
    fn dimensions_are_valid(&self, randomness: &Randomness) -> (r: bool)
        requires
            2 * self.parameters.m + 1 <= usize::MAX,
        ensures
            r == valid_dimensions(self.parameters@, self.statement@, self.witness@, randomness@),
    {
        let m = self.parameters.m;
        let n = self.parameters.n;
        m >= 1 && self.statement.bilinear_map.n == n && shape_is(self.witness.matrix_a, m, n)
            && shape_is(self.witness.matrix_b, m, n) && self.witness.randoms_for_a_commit.len()
            == m && self.witness.randoms_for_b_commit.len() == m && randomness.a_0.len() == n
            && randomness.b_m.len() == n && randomness.t.len() == 2 * m + 1
    }

    /// The commitments to the diagonals of the two extended matrices.
    fn commit_diagonals(
        &self,
        extended_a: &Vec<Vec<Scalar>>,
        extended_b: &Vec<Vec<Scalar>>,
        masks: &Vec<Scalar>,
    ) -> (r: Vec<Commitment>)
        requires
            2 * self.parameters.m + 1 <= usize::MAX,
            self.parameters@.commit_key.g.len() >= 1,
            self.statement@.bilinear_map.n == self.parameters@.n,
            has_shape(matrix_values(extended_a@), (self.parameters.m + 1) as nat, self.parameters@.n),
            has_shape(matrix_values(extended_b@), (self.parameters.m + 1) as nat, self.parameters@.n),
            masks@.len() == 2 * self.parameters.m + 1,
        ensures
            commitment_values(r@) == Seq::new(
                2 * self.parameters@.m + 1,
                |k: int|
                    commitment(
                        self.parameters@.commit_key,
                        seq![
                            diagonal(
                                self.statement@.bilinear_map.y,
                                matrix_values(extended_a@),
                                matrix_values(extended_b@),
                                self.parameters@.m,
                                self.parameters@.n,
                                k as nat,
                            ),
                        ],
                        scalar_values(masks@)[k],
                    ),
            ),
    {
        let m = self.parameters.m;
        let mut r: Vec<Commitment> = Vec::new();
        let mut k: usize = 0;
        while k < 2 * m + 1
            invariant
                k <= 2 * m + 1,
                m == self.parameters.m,
                2 * m + 1 <= usize::MAX,
                self.parameters@.commit_key.g.len() >= 1,
                self.statement@.bilinear_map.n == self.parameters@.n,
                has_shape(matrix_values(extended_a@), (m + 1) as nat, self.parameters@.n),
                has_shape(matrix_values(extended_b@), (m + 1) as nat, self.parameters@.n),
                masks@.len() == 2 * m + 1,
                r@.len() == k,
                forall|c: int|
                    0 <= c < k ==> (#[trigger] r@[c])@ == commitment(
                        self.parameters@.commit_key,
                        seq![
                            diagonal(
                                self.statement@.bilinear_map.y,
                                matrix_values(extended_a@),
                                matrix_values(extended_b@),
                                m as nat,
                                self.parameters@.n,
                                c as nat,
                            ),
                        ],
                        scalar_values(masks@)[c],
                    ),
            decreases 2 * m + 1 - k,
        {
            let d = diagonal_of(self.statement.bilinear_map, extended_a, extended_b, m, k);
            let mut single: Vec<Scalar> = Vec::new();
            single.push(d);
            assert(scalar_values(single@) =~= seq![d@]);
            match PedersenCommitment::commit(self.parameters.commit_key, &single, masks[k]) {
                Ok(c) => {
                    r.push(c);
                },
                Err(_) => {
                    assert(false);
                },
            }
            k = k + 1;
        }
        assert(commitment_values(r@) =~= Seq::new(
            2 * self.parameters@.m + 1,
            |k: int|
                commitment(
                    self.parameters@.commit_key,
                    seq![
                        diagonal(
                            self.statement@.bilinear_map.y,
                            matrix_values(extended_a@),
                            matrix_values(extended_b@),
                            self.parameters@.m,
                            self.parameters@.n,
                            k as nat,
                        ),
                    ],
                    scalar_values(masks@)[k],
                ),
        ));
        r
    }

    /// Proves the statement with the given random values.
    pub fn prove_with(&self, randomness: &Randomness, fs_rng: &mut Transcript) -> (r: Result<
        Proof,
        CryptoError,
    >)
        requires
            2 * self.parameters().m + 1 <= usize::MAX,
        ensures
            proof_outcome(r) == proving(
                self.parameters()@,
                self.statement()@,
                self.witness()@,
                randomness@,
                old(fs_rng)@,
            ),
            final(fs_rng)@ == proved_state(
                self.parameters()@,
                self.statement()@,
                self.witness()@,
                randomness@,
                old(fs_rng)@,
            ),
    {
        let m = self.parameters.m;
        let n = self.parameters.n;
        if !self.dimensions_are_valid(randomness) {
            return Err(
                CryptoError::DiagonalLengthError(
                    self.witness.matrix_a.len(),
                    self.witness.matrix_b.len(),
                ),
            );
        }
        let a_0_commit = match PedersenCommitment::commit(
            self.parameters.commit_key,
            &randomness.a_0,
            randomness.r_0,
        ) {
            Ok(c) => c,
            Err(e) => {
                return Err(e);
            },
        };
        let b_m_commit = match PedersenCommitment::commit(
            self.parameters.commit_key,
            &randomness.b_m,
            randomness.s_m,
        ) {
            Ok(c) => c,
            Err(e) => {
                return Err(e);
            },
        };
        if self.parameters.commit_key.len() < 1 {
            return Err(CryptoError::CommitmentLengthError("Pedersen".to_owned(), 1, 0));
        }
        // The randomness of the commitments to the diagonals.
        let mut masks: Vec<Scalar> = Vec::new();
        let mut k: usize = 0;
        while k < 2 * m + 1
            invariant
                k <= 2 * m + 1,
                2 * m + 1 <= usize::MAX,
                randomness.t@.len() == 2 * m + 1,
                masks@.len() == k,
                forall|c: int|
                    0 <= c < k ==> (#[trigger] masks@[c])@ == (if c == m + 1 {
                        0
                    } else {
                        randomness.t@[c]@
                    }),
            decreases 2 * m + 1 - k,
        {
            if k == m + 1 {
                masks.push(Scalar::zero());
            } else {
                masks.push(randomness.t[k]);
            }
            k = k + 1;
        }
        assert(scalar_values(masks@) =~= super::prover::masks(m as nat, randomness@));

        let rows_a = with_row_in_front(&randomness.a_0, self.witness.matrix_a);
        let rows_b = with_row_at_end(self.witness.matrix_b, &randomness.b_m);
        assert(matrix_values(rows_a@) == extended_a(self.witness@, randomness@));
        assert(matrix_values(rows_b@) == extended_b(self.witness@, randomness@));
        let vector_of_committed_diagonals = self.commit_diagonals(&rows_a, &rows_b, &masks);
        assert(commitment_values(vector_of_committed_diagonals@) =~= committed_diagonals(
            self.parameters@,
            self.statement@,
            self.witness@,
            randomness@,
        ));

        let x = derive_challenge(
            self.parameters,
            self.statement,
            &a_0_commit,
            &b_m_commit,
            &vector_of_committed_diagonals,
            fs_rng,
        );

        let challenge_powers = scalar_powers(x, 2 * m);
        let rising = slice_of(&challenge_powers, 0, m + 1);
        let falling = reversed(&rising);
        proof {
            let all = powers(x@, (2 * m + 1) as nat);
            assert(scalar_values(challenge_powers@) == all);
            assert(scalar_values(rising@) =~= all.subrange(0, m + 1));
            assert(all.subrange(0, m + 1) =~= powers(x@, (m + 1) as nat));
            assert(scalar_values(falling@) =~= scalar_values(rising@).reverse());
            assert(powers(x@, (m + 1) as nat).reverse() =~= descending_powers(
                x@,
                (m + 1) as nat,
            ));
        }
        let a_blinded = linear_combination(&rising, &rows_a, n);
        let b_blinded = linear_combination(&falling, &rows_b, n);

        let mut randoms_a: Vec<Scalar> = Vec::new();
        randoms_a.push(randomness.r_0);
        let mut i: usize = 0;
        while i < m
            invariant
                i <= m,
                self.witness.randoms_for_a_commit@.len() == m,
                randoms_a@ == seq![randomness.r_0] + self.witness.randoms_for_a_commit@.take(i as int),
            decreases m - i,
        {
            randoms_a.push(self.witness.randoms_for_a_commit[i]);
            i = i + 1;
            assert(randoms_a@ =~= seq![randomness.r_0] + self.witness.randoms_for_a_commit@.take(
                i as int,
            ));
        }
        assert(self.witness.randoms_for_a_commit@.take(m as int)
            == self.witness.randoms_for_a_commit@);
        assert(scalar_values(randoms_a@) =~= seq![randomness@.r_0]
            + self.witness@.randoms_for_a_commit);
        let mut randoms_b = copy_of(self.witness.randoms_for_b_commit);
        randoms_b.push(randomness.s_m);
        assert(scalar_values(randoms_b@) =~= self.witness@.randoms_for_b_commit.push(
            randomness@.s_m,
        ));

        let r_blinded = match dot_product(&rising, &randoms_a) {
            Ok(v) => v,
            Err(e) => {
                assert(false);
                return Err(e);
            },
        };
        let s_blinded = match dot_product(&falling, &randoms_b) {
            Ok(v) => v,
            Err(e) => {
                assert(false);
                return Err(e);
            },
        };
        let t_blinded = match dot_product(&challenge_powers, &masks) {
            Ok(v) => v,
            Err(e) => {
                assert(false);
                return Err(e);
            },
        };

        Ok(
            Proof {
                a_0_commit,
                b_m_commit,
                vector_of_committed_diagonals,
                a_blinded,
                b_blinded,
                r_blinded,
                s_blinded,
                t_blinded,
            },
        )
    }

    /// Proves the statement, drawing the random values from the random number generator.
    pub fn prove(&self, rng: &mut rand::rngs::StdRng, fs_rng: &mut Transcript) -> (r: Result<
        Proof,
        CryptoError,
    >)
        requires
            2 * self.parameters().m + 1 <= usize::MAX,
        ensures
            exists|rho: RandomnessModel| #[trigger]
                run_with(
                    self.parameters()@,
                    self.statement()@,
                    self.witness()@,
                    rho,
                    old(fs_rng)@,
                    proof_outcome(r),
                    final(fs_rng)@,
                ),
    {
        let n = self.parameters.n;
        let m = self.parameters.m;
        let a_0 = sample_vector(rng, n);
        let b_m = sample_vector(rng, n);
        let r_0 = Scalar::rand(rng);
        let s_m = Scalar::rand(rng);
        let t = sample_vector(rng, 2 * m + 1);
        let randomness = Randomness { a_0, b_m, r_0, s_m, t };
        let r = self.prove_with(&randomness, fs_rng);
        proof {
            assert(run_with(
                self.parameters()@,
                self.statement()@,
                self.witness()@,
                randomness@,
                old(fs_rng)@,
                proof_outcome(r),
                fs_rng@,
            ));
        }
        r
    }
}

} // verus!
