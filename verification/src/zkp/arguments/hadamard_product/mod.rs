//! The argument that a committed vector is the entry-wise product of the rows of a committed
//! matrix.
use super::zero_value_bilinear_map as zero_argument;
use crate::error::{CryptoError, ErrorModel};
use crate::field::{fmul, fneg, fpow, matrix_values, scalar_values, weighted_sum, Scalar};
use crate::vector_commitment::pedersen::{
    commit_key_encoding, commitment, commitment_values, CommitKey, CommitKeyModel, Commitment,
};
use crate::zkp::ArgumentOfKnowledge;
use crate::zkp::arguments::rising_powers;
use crate::zkp::transcript::{
    absorbed_state, challenge, dimension_encoding, label_encoding, points_encoding,
    squeezed_state, write_dimension, write_label, Transcript,
};
use vstd::prelude::*;

pub mod completeness;
pub mod prover;
pub mod verification;

verus! {

/// The public parameters of the argument: the commit key and the dimensions of the matrix.
pub struct Parameters<'a> {
    pub commit_key: &'a CommitKey,
    pub m: usize,
    pub n: usize,
}

/// The mathematical content of the parameters.
pub struct ParametersModel {
    pub commit_key: CommitKeyModel,
    pub m: nat,
    pub n: nat,
}

impl<'a> View for Parameters<'a> {
    type V = ParametersModel;

    open spec fn view(&self) -> ParametersModel {
        ParametersModel { commit_key: self.commit_key@, m: self.m as nat, n: self.n as nat }
    }
}

impl<'a> Parameters<'a> {
    /// The parameters with the given fields.
    pub fn new(m: usize, n: usize, commit_key: &'a CommitKey) -> (r: Parameters<'a>)
        ensures
            r@ == (ParametersModel { commit_key: commit_key@, m: m as nat, n: n as nat }),
    {
        Parameters { commit_key, m, n }
    }
}

/// The statement: commitments to the rows of a matrix, and a commitment to the vector that is
/// claimed to be their entry-wise product.
pub struct Statement<'a> {
    pub commitment_to_a: &'a Vec<Commitment>,
    pub commitment_to_b: Commitment,
}

/// The mathematical content of a statement.
pub struct StatementModel {
    pub commitment_to_a: Seq<nat>,
    pub commitment_to_b: nat,
}

impl<'a> View for Statement<'a> {
    type V = StatementModel;

    open spec fn view(&self) -> StatementModel {
        StatementModel {
            commitment_to_a: commitment_values(self.commitment_to_a@),
            commitment_to_b: self.commitment_to_b@,
        }
    }
}

impl<'a> Statement<'a> {
    /// The statement with the given fields.
    pub fn new(commitment_to_a: &'a Vec<Commitment>, commitment_to_b: Commitment) -> (r: Statement<
        'a,
    >)
        ensures
            r@ == (StatementModel {
                commitment_to_a: commitment_values(commitment_to_a@),
                commitment_to_b: commitment_to_b@,
            }),
    {
        Statement { commitment_to_a, commitment_to_b }
    }
}

/// The witness: the matrix, the product of its rows, and the randomness of the commitments.
pub struct Witness<'a> {
    pub matrix_a: &'a Vec<Vec<Scalar>>,
    pub randoms_for_a_commit: &'a Vec<Scalar>,
    pub vector_b: &'a Vec<Scalar>,
    pub random_for_b_commit: Scalar,
}

/// The mathematical content of a witness.
pub struct WitnessModel {
    pub matrix_a: Seq<Seq<nat>>,
    pub randoms_for_a_commit: Seq<nat>,
    pub vector_b: Seq<nat>,
    pub random_for_b_commit: nat,
}

impl<'a> View for Witness<'a> {
    type V = WitnessModel;

    open spec fn view(&self) -> WitnessModel {
        WitnessModel {
            matrix_a: matrix_values(self.matrix_a@),
            randoms_for_a_commit: scalar_values(self.randoms_for_a_commit@),
            vector_b: scalar_values(self.vector_b@),
            random_for_b_commit: self.random_for_b_commit@,
        }
    }
}

impl<'a> Witness<'a> {
    /// The witness with the given fields.
    pub fn new(
        matrix_a: &'a Vec<Vec<Scalar>>,
        randoms_for_a_commit: &'a Vec<Scalar>,
        vector_b: &'a Vec<Scalar>,
        random_for_b_commit: Scalar,
    ) -> (r: Witness<'a>)
        ensures
            r@ == (WitnessModel {
                matrix_a: matrix_values(matrix_a@),
                randoms_for_a_commit: scalar_values(randoms_for_a_commit@),
                vector_b: scalar_values(vector_b@),
                random_for_b_commit: random_for_b_commit@,
            }),
    {
        Witness { matrix_a, randoms_for_a_commit, vector_b, random_for_b_commit }
    }
}

/// The label of the protocol in the errors of its verifier.
pub open spec fn label() -> Seq<char> {
    "Hadamard Product (5.1)"@
}

/// The state of the transcript after the label was absorbed.
pub open spec fn labelled_state(state: Seq<u8>) -> Seq<u8> {
    absorbed_state(state, label_encoding("hadamard_product_argument"))
}

/// The state of the transcript when the first challenge is squeezed: the label, the parameters
/// and the commitments to the partial products have been absorbed.
pub open spec fn transcript(params: ParametersModel, b_commits: Seq<nat>, state: Seq<u8>) -> Seq<
    u8,
> {
    absorbed_state(
        absorbed_state(
            labelled_state(state),
            commit_key_encoding(params.commit_key) + dimension_encoding(params.m)
                + dimension_encoding(params.n),
        ),
        points_encoding(b_commits),
    )
}

/// The first challenge.
pub open spec fn challenge_x(params: ParametersModel, b_commits: Seq<nat>, state: Seq<u8>) -> nat {
    challenge(transcript(params, b_commits, state))
}

/// The second challenge.
pub open spec fn challenge_y(params: ParametersModel, b_commits: Seq<nat>, state: Seq<u8>) -> nat {
    challenge(squeezed_state(transcript(params, b_commits, state)))
}

/// The state of the transcript after both challenges were squeezed.
pub open spec fn challenged_state(params: ParametersModel, b_commits: Seq<nat>, state: Seq<u8>) -> Seq<
    u8,
> {
    squeezed_state(squeezed_state(transcript(params, b_commits, state)))
}

/// The second vector of commitments of the zero-value statement: `x^i` times the commitment to
/// partial product `i` for `i` from 1 to `m - 1`, and then the sum of `x^i` times the
/// commitment to partial product `i + 1` over the same `i`.
pub open spec fn shifted_commitments(b_commits: Seq<nat>, x: nat, m: nat) -> Seq<nat> {
    Seq::new(
        m,
        |i: int|
            if i < m - 1 {
                fmul(fpow(x, (i + 1) as nat), b_commits[i])
            } else {
                weighted_sum(
                    rising_powers(x, (m - 1) as nat),
                    b_commits.subrange(1, m as int),
                    (m - 1) as nat,
                )
            },
    )
}

/// The vector whose `n` entries are all minus one.
pub open spec fn minus_ones(n: nat) -> Seq<nat> {
    Seq::new(n, |i: int| fneg(1))
}

/// The first vector of commitments of the zero-value statement: the commitments to the rows
/// of the matrix but for the first, and the commitment to the vector of minus ones with no
/// randomness.
pub open spec fn later_commitments(params: ParametersModel, commitment_to_a: Seq<nat>) -> Seq<nat> {
    commitment_to_a.subrange(1, commitment_to_a.len() as int).push(
        commitment(params.commit_key, minus_ones(params.n), 0),
    )
}

/// The parameters of the zero-value argument that the argument reduces to.
pub open spec fn zero_parameters(params: ParametersModel) -> zero_argument::ParametersModel {
    zero_argument::ParametersModel { commit_key: params.commit_key, m: params.m, n: params.n }
}

/// The statement of the zero-value argument that the argument reduces to.
pub open spec fn zero_statement(
    params: ParametersModel,
    statement: StatementModel,
    b_commits: Seq<nat>,
    x: nat,
    y: nat,
) -> zero_argument::StatementModel {
    zero_argument::StatementModel {
        commitment_to_a: later_commitments(params, statement.commitment_to_a),
        commitment_to_b: shifted_commitments(b_commits, x, params.m),
        bilinear_map: zero_argument::YMappingModel { y, n: params.n },
    }
}

/// Absorbs the parameters and the commitments to the partial products into a transcript that
/// holds the label already, and squeezes the two challenges.
pub(crate) fn derive_challenges(
    proof_parameters: &Parameters,
    b_commits: &Vec<Commitment>,
    fs_rng: &mut Transcript,
    Ghost(state): Ghost<Seq<u8>>,
) -> (r: (Scalar, Scalar))
    requires
        old(fs_rng)@ == labelled_state(state),
    ensures
        r.0@ == challenge_x(proof_parameters@, commitment_values(b_commits@), state),
        r.1@ == challenge_y(proof_parameters@, commitment_values(b_commits@), state),
        final(fs_rng)@ == challenged_state(proof_parameters@, commitment_values(b_commits@), state),
{
    let mut buf: Vec<u8> = Vec::new();
    proof_parameters.commit_key.write(&mut buf);
    write_dimension(&mut buf, proof_parameters.m);
    write_dimension(&mut buf, proof_parameters.n);
    assert(buf@ =~= commit_key_encoding(proof_parameters@.commit_key) + dimension_encoding(
        proof_parameters@.m,
    ) + dimension_encoding(proof_parameters@.n));
    fs_rng.absorb(buf.as_slice());

    let mut buf: Vec<u8> = Vec::new();
    Commitment::write_all(&mut buf, b_commits);
    assert(buf@ =~= points_encoding(commitment_values(b_commits@)));
    fs_rng.absorb(buf.as_slice());

    let x = fs_rng.squeeze_scalar();
    let y = fs_rng.squeeze_scalar();
    (x, y)
}

/// Absorbs the label of the protocol.
pub fn absorb_label(fs_rng: &mut Transcript)
    ensures
        final(fs_rng)@ == labelled_state(old(fs_rng)@),
{
    let mut buf: Vec<u8> = Vec::new();
    write_label(&mut buf, "hadamard_product_argument");
    assert(buf@ =~= label_encoding("hadamard_product_argument"));
    fs_rng.absorb(buf.as_slice());
}

/// The second vector of commitments of the zero-value statement.
pub(crate) fn shift_commitments(b_commits: &Vec<Commitment>, challenge_powers: &Vec<Scalar>, Ghost(x): Ghost<nat>) -> (r: Vec<
    Commitment,
>)
    requires
        challenge_powers@.len() >= 1,
        b_commits@.len() >= challenge_powers@.len(),
        forall|i: int|
            0 <= i < challenge_powers@.len() ==> (#[trigger] challenge_powers@[i])@ == fpow(
                x,
                i as nat,
            ),
    ensures
        commitment_values(r@) == shifted_commitments(
            commitment_values(b_commits@),
            x,
            challenge_powers@.len(),
        ),
{
    let m = challenge_powers.len();
    let mut r: Vec<Commitment> = Vec::new();
    let mut i: usize = 0;
    while i < m - 1
        invariant
            i <= m - 1,
            m == challenge_powers@.len(),
            m >= 1,
            b_commits@.len() >= m,
            forall|i: int| 0 <= i < m ==> (#[trigger] challenge_powers@[i])@ == fpow(x, i as nat),
            r@.len() == i,
            forall|k: int|
                0 <= k < i ==> (#[trigger] r@[k])@ == fmul(fpow(x, (k + 1) as nat), b_commits@[k]@),
        decreases m - 1 - i,
    {
        r.push(b_commits[i].mul(&challenge_powers[i + 1]));
        i = i + 1;
    }
    let ghost weights = rising_powers(x, (m - 1) as nat);
    let ghost shifted = commitment_values(b_commits@).subrange(1, m as int);
    let mut acc = Commitment::zero();
    let mut i: usize = 0;
    while i < m - 1
        invariant
            i <= m - 1,
            m == challenge_powers@.len(),
            m >= 1,
            b_commits@.len() >= m,
            forall|i: int| 0 <= i < m ==> (#[trigger] challenge_powers@[i])@ == fpow(x, i as nat),
            weights == rising_powers(x, (m - 1) as nat),
            shifted == commitment_values(b_commits@).subrange(1, m as int),
            acc@ == weighted_sum(weights, shifted, i as nat),
        decreases m - 1 - i,
    {
        let term = b_commits[i + 1].mul(&challenge_powers[i + 1]);
        acc = acc.add(&term);
        i = i + 1;
    }
    r.push(acc);
    assert(commitment_values(r@) =~= shifted_commitments(commitment_values(b_commits@), x, m as nat));
    r
}

/// The first vector of commitments of the zero-value statement, given the commitment to the
/// vector of minus ones.
pub fn later_commitments_of(commitment_to_a: &Vec<Commitment>, minus_ones_commit: Commitment) -> (r: Vec<
    Commitment,
>)
    requires
        commitment_to_a@.len() >= 1,
    ensures
        commitment_values(r@) == commitment_values(commitment_to_a@).subrange(
            1,
            commitment_to_a@.len() as int,
        ).push(minus_ones_commit@),
{
    let mut r: Vec<Commitment> = Vec::new();
    let mut i: usize = 1;
    while i < commitment_to_a.len()
        invariant
            1 <= i <= commitment_to_a@.len(),
            r@.len() == i - 1,
            forall|k: int| 0 <= k < i - 1 ==> (#[trigger] r@[k]) == commitment_to_a@[k + 1],
        decreases commitment_to_a@.len() - i,
    {
        r.push(commitment_to_a[i]);
        i = i + 1;
    }
    r.push(minus_ones_commit);
    assert(commitment_values(r@) =~= commitment_values(commitment_to_a@).subrange(
        1,
        commitment_to_a@.len() as int,
    ).push(minus_ones_commit@));
    r
}

/// The vector whose `n` entries are all minus one.
pub fn minus_ones_vector(n: usize) -> (r: Vec<Scalar>)
    ensures
        scalar_values(r@) == minus_ones(n as nat),
{
    let minus_one = Scalar::one().neg();
    let mut r: Vec<Scalar> = Vec::new();
    let mut i: usize = 0;
    while i < n
        invariant
            i <= n,
            r@.len() == i,
            minus_one@ == fneg(1),
            forall|k: int| 0 <= k < i ==> (#[trigger] r@[k])@ == fneg(1),
        decreases n - i,
    {
        r.push(minus_one);
        i = i + 1;
    }
    assert(scalar_values(r@) =~= minus_ones(n as nat));
    r
}

/// The Hadamard-product argument as an argument of knowledge.
pub struct HadamardProductArgument<'a> {
    _marker: core::marker::PhantomData<&'a ()>,
}

impl<'a> ArgumentOfKnowledge for HadamardProductArgument<'a> {
    type CommonReferenceString = Parameters<'a>;

    type Statement = Statement<'a>;

    type Witness = Witness<'a>;

    type Proof = verification::Proof;

    open spec fn admissible(common_reference_string: &Parameters<'a>, statement: &Statement<'a>) -> bool {
        2 * common_reference_string.m + 1 <= usize::MAX
    }

    open spec fn verdict(
        common_reference_string: &Parameters<'a>,
        statement: &Statement<'a>,
        proof: &verification::Proof,
        state: Seq<u8>,
    ) -> Result<(), ErrorModel> {
        verification::verification(common_reference_string@, statement@, proof@, state)
    }

    fn prove(
        rng: &mut rand::rngs::StdRng,
        common_reference_string: &Parameters<'a>,
        statement: &Statement<'a>,
        witness: &Witness<'a>,
        fs_rng: &mut Transcript,
    ) -> (r: Result<verification::Proof, CryptoError>)
        ensures
            exists|rho: prover::RandomnessModel| #[trigger]
                prover::run_with(
                    common_reference_string@,
                    statement@,
                    witness@,
                    rho,
                    old(fs_rng)@,
                    prover::proof_outcome(r),
                    final(fs_rng)@,
                ),
    {
        let prover = prover::Prover::new(common_reference_string, statement, witness);
        prover.prove(rng, fs_rng)
    }

    fn verify(
        common_reference_string: &Parameters<'a>,
        statement: &Statement<'a>,
        proof: &verification::Proof,
        fs_rng: &mut Transcript,
    ) -> (r: Result<(), CryptoError>)
        ensures
            final(fs_rng)@ == verification::verified_state(
                common_reference_string@,
                statement@,
                proof@,
                old(fs_rng)@,
            ),
    {
        proof.verify(common_reference_string, statement, fs_rng)
    }
}

} // verus!
