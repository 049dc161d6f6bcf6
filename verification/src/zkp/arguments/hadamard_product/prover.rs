//! The prover of the Hadamard-product argument.
use super::{
    absorb_label, challenge_x, challenge_y, challenged_state, derive_challenges,
    later_commitments_of, minus_ones, minus_ones_vector, shift_commitments, zero_parameters,
    zero_statement, Parameters, ParametersModel, Statement, StatementModel, Witness, WitnessModel,
};
use super::super::zero_value_bilinear_map as zero_argument;
use super::verification::{Proof, ProofModel};
use crate::error::{CryptoError, ErrorModel};
use crate::field::{
    fmul, fpow, matrix_values, order, powers, reduced, scalar_values, weighted_sum, Scalar,
};
use crate::utils::random::sample_vector;
use crate::utils::vector_arithmetic::{dot_product, entrywise_product, hadamard_product};
use crate::vector_commitment::pedersen::{
    commitment, commitment_values, Commitment, PedersenCommitment,
};
use crate::zkp::arguments::{
    combination, copy_of, has_shape, linear_combination, rising_powers, rows_of, scalar_powers,
    scale, scaled, shape_is, slice_of,
};
use crate::zkp::transcript::Transcript;
use vstd::prelude::*;

verus! {

/// The random values that the prover draws: the randomness of the commitments to the partial
/// products but for the first and the last, and the random values of the zero-value argument.
pub struct Randomness {
    pub s: Vec<Scalar>,
    pub zero: zero_argument::prover::Randomness,
}

/// The mathematical content of the random values.
pub struct RandomnessModel {
    pub s: Seq<nat>,
    pub zero: zero_argument::prover::RandomnessModel,
}

impl View for Randomness {
    type V = RandomnessModel;

    open spec fn view(&self) -> RandomnessModel {
        RandomnessModel { s: scalar_values(self.s@), zero: self.zero@ }
    }
}

/// Whether the statement, the witness and the random values have the dimensions of the
/// parameters; the matrix must have at least two rows.
pub open spec fn valid_dimensions(
    params: ParametersModel,
    statement: StatementModel,
    witness: WitnessModel,
    rho: RandomnessModel,
) -> bool {
    &&& params.m >= 2
    &&& statement.commitment_to_a.len() == params.m
    &&& has_shape(witness.matrix_a, params.m, params.n)
    &&& witness.randoms_for_a_commit.len() == params.m
    &&& rho.s.len() == params.m - 2
}

/// The entry-wise product of the rows `0, .., i` of a matrix.
pub open spec fn partial_product(a: Seq<Seq<nat>>, i: nat) -> Seq<nat>
    decreases i,
{
    if i == 0 {
        a[0]
    } else {
        entrywise_product(partial_product(a, (i - 1) as nat), a[i as int])
    }
}

/// The partial products of the rows of a matrix.
pub open spec fn partial_products(a: Seq<Seq<nat>>) -> Seq<Seq<nat>> {
    Seq::new(a.len(), |i: int| partial_product(a, i as nat))
}

/// The randomness of the commitments to the partial products: that of the first row, the
/// values that were drawn, and that of the claimed product.
pub open spec fn product_randoms(witness: WitnessModel, rho: RandomnessModel) -> Seq<nat> {
    seq![witness.randoms_for_a_commit[0]] + rho.s + seq![witness.random_for_b_commit]
}

/// The commitments to the partial products.
pub open spec fn product_commitments(
    params: ParametersModel,
    witness: WitnessModel,
    rho: RandomnessModel,
) -> Seq<nat> {
    Seq::new(
        params.m,
        |i: int|
            commitment(
                params.commit_key,
                partial_product(witness.matrix_a, i as nat),
                product_randoms(witness, rho)[i],
            ),
    )
}

/// The second matrix of the zero-value witness: `x^i` times partial product `i` for `i` from 1
/// to `m - 1`, and then the sum of `x^i` times partial product `i + 1` over the same `i`.
pub open spec fn shifted_products(params: ParametersModel, witness: WitnessModel, x: nat) -> Seq<
    Seq<nat>,
> {
    let m = params.m;
    Seq::new(
        m,
        |i: int|
            if i < m - 1 {
                scaled(fpow(x, (i + 1) as nat), partial_product(witness.matrix_a, i as nat))
            } else {
                combination(
                    rising_powers(x, (m - 1) as nat),
                    partial_products(witness.matrix_a).subrange(1, m as int),
                    params.n,
                )
            },
    )
}

/// The randomness of the commitments to the rows of the second matrix of the zero-value
/// witness.
pub open spec fn shifted_randoms(
    params: ParametersModel,
    witness: WitnessModel,
    rho: RandomnessModel,
    x: nat,
) -> Seq<nat> {
    let m = params.m;
    Seq::new(
        m,
        |i: int|
            if i < m - 1 {
                fmul(fpow(x, (i + 1) as nat), product_randoms(witness, rho)[i])
            } else {
                weighted_sum(
                    rising_powers(x, (m - 1) as nat),
                    product_randoms(witness, rho).subrange(1, m as int),
                    (m - 1) as nat,
                )
            },
    )
}

/// The witness of the zero-value argument that the argument reduces to.
pub open spec fn zero_witness(
    params: ParametersModel,
    witness: WitnessModel,
    rho: RandomnessModel,
    x: nat,
) -> zero_argument::WitnessModel {
    let m = params.m;
    zero_argument::WitnessModel {
        matrix_a: witness.matrix_a.subrange(1, m as int).push(minus_ones(params.n)),
        randoms_for_a_commit: witness.randoms_for_a_commit.subrange(1, m as int).push(0),
        matrix_b: shifted_products(params, witness, x),
        randoms_for_b_commit: shifted_randoms(params, witness, rho, x),
    }
}

/// What the prover of the zero-value argument returns in the reduction.
pub open spec fn reduced_proving(
    params: ParametersModel,
    statement: StatementModel,
    witness: WitnessModel,
    rho: RandomnessModel,
    state: Seq<u8>,
) -> Result<zero_argument::verification::ProofModel, ErrorModel> {
    let b_commits = product_commitments(params, witness, rho);
    let x = challenge_x(params, b_commits, state);
    let y = challenge_y(params, b_commits, state);
    zero_argument::prover::proving(
        zero_parameters(params),
        zero_statement(params, statement, b_commits, x, y),
        zero_witness(params, witness, rho, x),
        rho.zero,
        challenged_state(params, b_commits, state),
    )
}

/// What the prover returns for the given random values, for a transcript in the given state.
pub open spec fn proving(
    params: ParametersModel,
    statement: StatementModel,
    witness: WitnessModel,
    rho: RandomnessModel,
    state: Seq<u8>,
) -> Result<ProofModel, ErrorModel> {
    if !valid_dimensions(params, statement, witness, rho) {
        Err(ErrorModel::HadamardProductLength(witness.matrix_a.len(), params.m))
    } else if params.n > params.commit_key.g.len() {
        Err(ErrorModel::CommitmentLength("Pedersen"@, params.n, params.commit_key.g.len()))
    } else {
        match reduced_proving(params, statement, witness, rho, state) {
            Ok(zero_arg_proof) => Ok(
                ProofModel {
                    b_commits: product_commitments(params, witness, rho),
                    zero_arg_proof,
                },
            ),
            Err(e) => Err(e),
        }
    }
}

/// The state in which the prover leaves the transcript.
pub open spec fn proved_state(
    params: ParametersModel,
    statement: StatementModel,
    witness: WitnessModel,
    rho: RandomnessModel,
    state: Seq<u8>,
) -> Seq<u8> {
    if !valid_dimensions(params, statement, witness, rho) || params.n
        > params.commit_key.g.len() {
        state
    } else {
        let b_commits = product_commitments(params, witness, rho);
        let x = challenge_x(params, b_commits, state);
        let y = challenge_y(params, b_commits, state);
        zero_argument::prover::proved_state(
            zero_parameters(params),
            zero_statement(params, statement, b_commits, x, y),
            zero_witness(params, witness, rho, x),
            rho.zero,
            challenged_state(params, b_commits, state),
        )
    }
}

/// The model of what a prover returns.
pub open spec fn proof_outcome(r: Result<Proof, CryptoError>) -> Result<ProofModel, ErrorModel> {
    match r {
        Ok(p) => Ok(p@),
        Err(e) => Err(e@),
    }
}

/// Whether a run of the prover that drew the random values `rho` returns `result` and leaves
/// the transcript in the state `after`.
pub open spec fn run_with(
    params: ParametersModel,
    statement: StatementModel,
    witness: WitnessModel,
    rho: RandomnessModel,
    state: Seq<u8>,
    result: Result<ProofModel, ErrorModel>,
    after: Seq<u8>,
) -> bool {
    &&& params.m >= 2 ==> rho.s.len() == params.m - 2
    &&& reduced(rho.s)
    &&& rho.zero.a_0.len() == params.n
    &&& rho.zero.b_m.len() == params.n
    &&& rho.zero.t.len() == 2 * params.m + 1
    &&& reduced(rho.zero.a_0)
    &&& reduced(rho.zero.b_m)
    &&& reduced(rho.zero.t)
    &&& rho.zero.r_0 < order()
    &&& rho.zero.s_m < order()
    &&& result == proving(params, statement, witness, rho, state)
    &&& after == proved_state(params, statement, witness, rho, state)
}

/// The prover of the Hadamard-product argument.
pub struct Prover<'a> {
    parameters: &'a Parameters<'a>,
    statement: &'a Statement<'a>,
    witness: &'a Witness<'a>,
}

/// The partial products of the rows of a matrix with at least one row.
pub fn partial_products_of(a: &Vec<Vec<Scalar>>, m: usize, n: usize) -> (r: Vec<Vec<Scalar>>)
    requires
        m >= 1,
        has_shape(matrix_values(a@), m as nat, n as nat),
    ensures
        matrix_values(r@) == partial_products(matrix_values(a@)),
        has_shape(matrix_values(r@), m as nat, n as nat),
{
    let mut r: Vec<Vec<Scalar>> = Vec::new();
    r.push(copy_of(&a[0]));
    let mut i: usize = 1;
    while i < m
        invariant
            1 <= i <= m,
            has_shape(matrix_values(a@), m as nat, n as nat),
            r@.len() == i,
            forall|k: int|
                0 <= k < i ==> scalar_values((#[trigger] r@[k])@) == partial_product(
                    matrix_values(a@),
                    k as nat,
                ) && r@[k]@.len() == n,
        decreases m - i,
    {
        assert(matrix_values(a@)[i as int].len() == n);
        match hadamard_product(&r[i - 1], &a[i]) {
            Ok(row) => {
                assert(scalar_values(row@).len() == n);
                r.push(row);
            },
            Err(_) => {
                assert(false);
            },
        }
        i = i + 1;
    }
    assert(matrix_values(r@) =~= partial_products(matrix_values(a@)));
    assert forall|k: int| 0 <= k < m implies (#[trigger] matrix_values(r@)[k]).len() == n by {
        assert(r@[k]@.len() == n);
    }
    r
}

impl<'a> Prover<'a> {
    /// The prover for the given parameters, statement and witness.
    pub fn new(
        parameters: &'a Parameters<'a>,
        statement: &'a Statement<'a>,
        witness: &'a Witness<'a>,
    ) -> (r: Prover<'a>)
        ensures
            r.parameters() == parameters,
            r.statement() == statement,
            r.witness() == witness,
    {
        Prover { parameters, statement, witness }
    }

    /// The parameters that the prover was made with.
    pub closed spec fn parameters(&self) -> &'a Parameters<'a> {
        self.parameters
    }

    /// The statement that the prover was made with.
    pub closed spec fn statement(&self) -> &'a Statement<'a> {
        self.statement
    }

    /// The witness that the prover was made with.
    pub closed spec fn witness(&self) -> &'a Witness<'a> {
        self.witness
    }

    /// The second matrix of the zero-value witness and the randomness of the commitments to
    /// its rows.
    fn shift_products(
        &self,
        products: &Vec<Vec<Scalar>>,
        randoms: &Vec<Scalar>,
        challenge_powers: &Vec<Scalar>,
        Ghost(rho): Ghost<RandomnessModel>,
        Ghost(x): Ghost<nat>,
    ) -> (r: (Vec<Vec<Scalar>>, Vec<Scalar>))
        requires
            self.parameters.m >= 2,
            challenge_powers@.len() == self.parameters.m,
            scalar_values(challenge_powers@) == powers(x, self.parameters.m as nat),
            matrix_values(products@) == partial_products(self.witness@.matrix_a),
            self.witness@.matrix_a.len() == self.parameters.m,
            has_shape(matrix_values(products@), self.parameters.m as nat, self.parameters.n as nat),
            scalar_values(randoms@) == product_randoms(self.witness@, rho),
            randoms@.len() == self.parameters.m,
        ensures
            matrix_values(r.0@) == shifted_products(self.parameters@, self.witness@, x),
            scalar_values(r.1@) == shifted_randoms(self.parameters@, self.witness@, rho, x),
    {
        let m = self.parameters.m;
        let n = self.parameters.n;
        let ghost w = self.witness@;
        let mut d: Vec<Vec<Scalar>> = Vec::new();
        let mut t: Vec<Scalar> = Vec::new();
        let mut i: usize = 0;
        while i < m - 1
            invariant
                i <= m - 1,
                m >= 2,
                w == self.witness@,
                challenge_powers@.len() == m,
                scalar_values(challenge_powers@) == powers(x, m as nat),
                matrix_values(products@) == partial_products(w.matrix_a),
                w.matrix_a.len() == m,
                products@.len() == m,
                scalar_values(randoms@) == product_randoms(w, rho),
                randoms@.len() == m,
                d@.len() == i,
                t@.len() == i,
                forall|k: int|
                    0 <= k < i ==> scalar_values((#[trigger] d@[k])@) == scaled(
                        fpow(x, (k + 1) as nat),
                        partial_product(w.matrix_a, k as nat),
                    ),
                forall|k: int|
                    0 <= k < i ==> (#[trigger] t@[k])@ == fmul(
                        fpow(x, (k + 1) as nat),
                        product_randoms(w, rho)[k],
                    ),
            decreases m - 1 - i,
        {
            assert(scalar_values(challenge_powers@)[i + 1] == challenge_powers@[i + 1]@);
            assert(matrix_values(products@)[i as int] == scalar_values(products@[i as int]@));
            assert(scalar_values(randoms@)[i as int] == randoms@[i as int]@);
            d.push(scale(&challenge_powers[i + 1], &products[i]));
            t.push(challenge_powers[i + 1].mul(&randoms[i]));
            i = i + 1;
        }
        let weights = slice_of(challenge_powers, 1, m);
        assert(scalar_values(weights@) =~= rising_powers(x, (m - 1) as nat)) by {
            assert forall|k: int| 0 <= k < m - 1 implies scalar_values(weights@)[k]
                == rising_powers(x, (m - 1) as nat)[k] by {
                assert(scalar_values(challenge_powers@)[k + 1] == challenge_powers@[k + 1]@);
            }
        }
        let later_products = rows_of(products, 1, m);
        assert(has_shape(matrix_values(later_products@), (m - 1) as nat, n as nat)) by {
            assert forall|k: int| 0 <= k < m - 1 implies (#[trigger] matrix_values(
                later_products@,
            )[k]).len() == n by {
                assert(matrix_values(products@)[k + 1].len() == n);
            }
        }
        let last_row = linear_combination(&weights, &later_products, n);
        d.push(last_row);
        let later_randoms = slice_of(randoms, 1, m);
        assert(scalar_values(later_randoms@) =~= product_randoms(w, rho).subrange(1, m as int));
        match dot_product(&weights, &later_randoms) {
            Ok(v) => {
                t.push(v);
            },
            Err(_) => {
                assert(false);
            },
        }
        assert(matrix_values(d@) =~= shifted_products(self.parameters@, w, x));
        assert(scalar_values(t@) =~= shifted_randoms(self.parameters@, w, rho, x));
        (d, t)
    }

    /// Proves the statement with the given random values.
    pub fn prove_with(&self, randomness: &Randomness, fs_rng: &mut Transcript) -> (r: Result<
        Proof,
        CryptoError,
    >)
        requires
            2 * self.parameters().m + 1 <= usize::MAX,
        ensures
            proof_outcome(r) == proving(
                self.parameters()@,
                self.statement()@,
                self.witness()@,
                randomness@,
                old(fs_rng)@,
            ),
            final(fs_rng)@ == proved_state(
                self.parameters()@,
                self.statement()@,
                self.witness()@,
                randomness@,
                old(fs_rng)@,
            ),
    {
        let m = self.parameters.m;
        let n = self.parameters.n;
        let a = self.witness.matrix_a;
        let ghost state = fs_rng@;
        let ghost rho = randomness@;
        let ghost w = self.witness@;
        if !(m >= 2 && self.statement.commitment_to_a.len() == m && shape_is(a, m, n)
            && self.witness.randoms_for_a_commit.len() == m && randomness.s.len() == m - 2) {
            return Err(CryptoError::HadamardProductLengthError(a.len(), m));
        }
        // The partial products of the rows, and the randomness of the commitments to them.
        let products = partial_products_of(a, m, n);
        let mut randoms: Vec<Scalar> = Vec::new();
        randoms.push(self.witness.randoms_for_a_commit[0]);
        let mut i: usize = 0;
        while i < m - 2
            invariant
                i <= m - 2,
                randomness.s@.len() == m - 2,
                self.witness.randoms_for_a_commit@.len() == m,
                randoms@.len() == i + 1,
                randoms@[0] == self.witness.randoms_for_a_commit@[0],
                forall|k: int| 1 <= k <= i ==> (#[trigger] randoms@[k]) == randomness.s@[k - 1],
            decreases m - 2 - i,
        {
            randoms.push(randomness.s[i]);
            i = i + 1;
        }
        randoms.push(self.witness.random_for_b_commit);
        assert(scalar_values(randoms@) =~= product_randoms(w, rho));

        let mut b_commits: Vec<Commitment> = Vec::new();
        let mut i: usize = 0;
        while i < m
            invariant
                i <= m,
                m >= 2,
                w == self.witness@,
                n == self.parameters.n,
                products@.len() == m,
                randoms@.len() == m,
                matrix_values(products@) == partial_products(w.matrix_a),
                has_shape(matrix_values(products@), m as nat, n as nat),
                scalar_values(randoms@) == product_randoms(w, rho),
                i > 0 ==> n <= self.parameters@.commit_key.g.len(),
                valid_dimensions(self.parameters@, self.statement@, w, rho),
                rho == randomness@,
                b_commits@.len() == i,
                fs_rng@ == state,
                forall|k: int|
                    0 <= k < i ==> (#[trigger] b_commits@[k])@ == commitment(
                        self.parameters@.commit_key,
                        partial_product(w.matrix_a, k as nat),
                        product_randoms(w, rho)[k],
                    ),
            decreases m - i,
        {
            assert(matrix_values(products@)[i as int] == scalar_values(products@[i as int]@));
            assert(matrix_values(products@)[i as int].len() == n);
            assert(scalar_values(randoms@)[i as int] == randoms@[i as int]@);
            match PedersenCommitment::commit(self.parameters.commit_key, &products[i], randoms[i]) {
                Ok(c) => {
                    b_commits.push(c);
                },
                Err(e) => {
                    return Err(e);
                },
            }
            i = i + 1;
        }
        assert(commitment_values(b_commits@) =~= product_commitments(self.parameters@, w, rho));

        absorb_label(fs_rng);
        let (x, y) = derive_challenges(self.parameters, &b_commits, fs_rng, Ghost(state));

        let x_challenge_powers = scalar_powers(x, m - 1);
        let prover_mapping = zero_argument::YMapping::new(y, n);
        assert forall|i: int| 0 <= i < x_challenge_powers@.len() implies (
        #[trigger] x_challenge_powers@[i])@ == fpow(x@, i as nat) by {
            assert(scalar_values(x_challenge_powers@)[i] == x_challenge_powers@[i]@);
        }
        let c_d_i = shift_commitments(&b_commits, &x_challenge_powers, Ghost(x@));

        let vec_minus_ones = minus_ones_vector(n);
        let minus_ones_commit = match PedersenCommitment::commit(
            self.parameters.commit_key,
            &vec_minus_ones,
            Scalar::zero(),
        ) {
            Ok(c) => c,
            Err(e) => {
                assert(false);
                return Err(e);
            },
        };
        let vec_commits_to_a = later_commitments_of(
            self.statement.commitment_to_a,
            minus_ones_commit,
        );

        // The witness of the zero-value argument.
        let mut later_rows = rows_of(a, 1, m);
        later_rows.push(vec_minus_ones);
        assert(matrix_values(later_rows@) =~= w.matrix_a.subrange(1, m as int).push(
            minus_ones(n as nat),
        ));
        let mut later_randoms = slice_of(self.witness.randoms_for_a_commit, 1, m);
        later_randoms.push(Scalar::zero());
        assert(scalar_values(later_randoms@) =~= w.randoms_for_a_commit.subrange(1, m as int).push(
            0,
        ));
        let (d, t) = self.shift_products(
            &products,
            &randoms,
            &x_challenge_powers,
            Ghost(rho),
            Ghost(x@),
        );

        let zero_arg_parameters = zero_argument::Parameters::new(m, n, self.parameters.commit_key);
        let zero_arg_statement = zero_argument::Statement::new(
            &vec_commits_to_a,
            &c_d_i,
            &prover_mapping,
        );
        let zero_arg_witness = zero_argument::Witness::new(&later_rows, &later_randoms, &d, &t);
        assert(zero_arg_parameters@ == zero_parameters(self.parameters@));
        assert(zero_arg_statement@ == zero_statement(
            self.parameters@,
            self.statement@,
            commitment_values(b_commits@),
            x@,
            y@,
        ));
        assert(zero_arg_witness@ == zero_witness(self.parameters@, w, rho, x@));
        let zero_arg_prover = zero_argument::prover::Prover::new(
            &zero_arg_parameters,
            &zero_arg_statement,
            &zero_arg_witness,
        );
        match zero_arg_prover.prove_with(&randomness.zero, fs_rng) {
            Ok(zero_arg_proof) => Ok(Proof { b_commits, zero_arg_proof }),
            Err(e) => Err(e),
        }
    }

    /// Proves the statement, drawing the random values from the random number generator.
    pub fn prove(&self, rng: &mut rand::rngs::StdRng, fs_rng: &mut Transcript) -> (r: Result<
        Proof,
        CryptoError,
    >)
        requires
            2 * self.parameters().m + 1 <= usize::MAX,
        ensures
            exists|rho: RandomnessModel| #[trigger]
                run_with(
                    self.parameters()@,
                    self.statement()@,
                    self.witness()@,
                    rho,
                    old(fs_rng)@,
                    proof_outcome(r),
                    final(fs_rng)@,
                ),
    {
        let n = self.parameters.n;
        let m = self.parameters.m;
        let s = sample_vector(rng, if m >= 2 {
            m - 2
        } else {
            0
        });
        let a_0 = sample_vector(rng, n);
        let b_m = sample_vector(rng, n);
        let r_0 = Scalar::rand(rng);
        let s_m = Scalar::rand(rng);
        let t = sample_vector(rng, 2 * m + 1);
        let zero = zero_argument::prover::Randomness { a_0, b_m, r_0, s_m, t };
        let randomness = Randomness { s, zero };
        let r = self.prove_with(&randomness, fs_rng);
        proof {
            assert(run_with(
                self.parameters()@,
                self.statement()@,
                self.witness()@,
                randomness@,
                old(fs_rng)@,
                proof_outcome(r),
                fs_rng@,
            ));
        }
        r
    }
}

} // verus!
