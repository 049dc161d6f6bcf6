//! The argument that a vector of ciphertexts is a shuffle of another: a permutation of it in
//! which every ciphertext was masked anew.
use super::matrix_elements_product as product_argument;
use super::multi_exponentiation as multi_exponentiation_argument;
use crate::error::{CryptoError, ErrorModel};
use crate::field::{matrix_values, scalar_values, Scalar};
use crate::group::point_encoding;
use crate::homomorphic_encryption::el_gamal::{
    ciphertext_rows, ciphertext_values, ciphertexts_encoding, Ciphertext, Generator, PublicKey,
};
use crate::homomorphic_encryption::el_gamal;
use crate::utils::permutation::Permutation;
use crate::utils::vector_arithmetic::{reshape, rows};
use crate::vector_commitment::pedersen::{
    commit_key_encoding, commitment_values, CommitKey, CommitKeyModel, Commitment,
};
use crate::zkp::ArgumentOfKnowledge;
use crate::zkp::arguments::{has_shape, rising_powers, scalar_powers, slice_of};
use crate::zkp::transcript::{
    absorbed_state, challenge, dimension_encoding, label_encoding, points_encoding,
    squeezed_state, write_dimension, write_label, write_point, Transcript,
};
use vstd::prelude::*;

pub mod completeness;
pub mod prover;
pub mod verification;

verus! {

/// The public parameters of the argument: the parameters and the public key of the
/// encryption, the commit key, and the generator that turns scalars into plaintexts.
pub struct Parameters<'a> {
    pub encrypt_parameters: &'a el_gamal::Parameters,
    pub public_key: &'a PublicKey,
    pub commit_key: &'a CommitKey,
    pub generator: &'a Generator,
}

/// The mathematical content of the parameters.
pub struct ParametersModel {
    pub encrypt_parameters: nat,
    pub public_key: nat,
    pub commit_key: CommitKeyModel,
    pub generator: nat,
}

impl<'a> View for Parameters<'a> {
    type V = ParametersModel;

    open spec fn view(&self) -> ParametersModel {
        ParametersModel {
            encrypt_parameters: self.encrypt_parameters@,
            public_key: self.public_key@,
            commit_key: self.commit_key@,
            generator: self.generator@,
        }
    }
}

impl<'a> Parameters<'a> {
    /// The parameters with the given fields.
    pub fn new(
        encrypt_parameters: &'a el_gamal::Parameters,
        public_key: &'a PublicKey,
        commit_key: &'a CommitKey,
        generator: &'a Generator,
    ) -> (r: Parameters<'a>)
        ensures
            r@ == (ParametersModel {
                encrypt_parameters: encrypt_parameters@,
                public_key: public_key@,
                commit_key: commit_key@,
                generator: generator@,
            }),
    {
        Parameters { encrypt_parameters, public_key, commit_key, generator }
    }
}

/// The statement: the ciphertexts before and after the shuffle, and the dimensions `m` and
/// `n` of the matrix that they are arranged in.
pub struct Statement<'a> {
    pub input_ciphers: &'a Vec<Ciphertext>,
    pub shuffled_ciphers: &'a Vec<Ciphertext>,
    pub m: usize,
    pub n: usize,
}

/// The mathematical content of a statement.
pub struct StatementModel {
    pub input_ciphers: Seq<(nat, nat)>,
    pub shuffled_ciphers: Seq<(nat, nat)>,
    pub m: nat,
    pub n: nat,
}

impl<'a> View for Statement<'a> {
    type V = StatementModel;

    open spec fn view(&self) -> StatementModel {
        StatementModel {
            input_ciphers: ciphertext_values(self.input_ciphers@),
            shuffled_ciphers: ciphertext_values(self.shuffled_ciphers@),
            m: self.m as nat,
            n: self.n as nat,
        }
    }
}

/// Whether a statement is valid: there is at least one ciphertext, there are as many after
/// the shuffle as before, and they fill the `m` by `n` matrix.
pub open spec fn valid_statement(statement: StatementModel) -> bool {
    &&& statement.input_ciphers.len() == statement.shuffled_ciphers.len()
    &&& statement.input_ciphers.len() == statement.m * statement.n
    &&& statement.input_ciphers.len() > 0
}

impl<'a> Statement<'a> {
    /// The statement with the given fields.
    pub fn new(
        input_ciphers: &'a Vec<Ciphertext>,
        shuffled_ciphers: &'a Vec<Ciphertext>,
        m: usize,
        n: usize,
    ) -> (r: Statement<'a>)
        ensures
            r@ == (StatementModel {
                input_ciphers: ciphertext_values(input_ciphers@),
                shuffled_ciphers: ciphertext_values(shuffled_ciphers@),
                m: m as nat,
                n: n as nat,
            }),
    {
        Statement { input_ciphers, shuffled_ciphers, m, n }
    }

    /// Checks that the statement is valid.
    pub fn is_valid(&self) -> (r: Result<(), CryptoError>)
        ensures
            match r {
                Ok(_) => valid_statement(self@),
                Err(e) => !valid_statement(self@) && e@ == ErrorModel::InvalidShuffleStatement,
            },
    {
        proof {
            assert((self.m as int) * (self.n as int) <= u128::MAX) by (nonlinear_arith)
                requires
                    0 <= self.m <= u64::MAX,
                    0 <= self.n <= u64::MAX,
            ;
        }
        let size: u128 = (self.m as u128) * (self.n as u128);
        if self.input_ciphers.len() != self.shuffled_ciphers.len() || self.input_ciphers.len()
            as u128 != size || self.input_ciphers.len() == 0 {
            return Err(CryptoError::InvalidShuffleStatement);
        }
        Ok(())
    }
}

/// The witness: the permutation, and the randomness with which the ciphertexts were masked.
pub struct Witness<'a> {
    pub permutation: &'a Permutation,
    pub rho: &'a Vec<Scalar>,
}

/// The mathematical content of a witness.
pub struct WitnessModel {
    pub permutation: Seq<nat>,
    pub rho: Seq<nat>,
}

impl<'a> View for Witness<'a> {
    type V = WitnessModel;

    open spec fn view(&self) -> WitnessModel {
        WitnessModel { permutation: self.permutation@, rho: scalar_values(self.rho@) }
    }
}

impl<'a> Witness<'a> {
    /// The witness with the given fields.
    pub fn new(permutation: &'a Permutation, rho: &'a Vec<Scalar>) -> (r: Witness<'a>)
        ensures
            r@ == (WitnessModel { permutation: permutation@, rho: scalar_values(rho@) }),
    {
        Witness { permutation, rho }
    }
}

/// The number of ciphertexts of a statement.
pub open spec fn size(statement: StatementModel) -> nat {
    statement.input_ciphers.len()
}

/// The state of the transcript when the first challenge is squeezed: the label, the public
/// data, the statement and the commitments of the first round have been absorbed.
pub open spec fn first_transcript(
    params: ParametersModel,
    statement: StatementModel,
    a_commits: Seq<nat>,
    state: Seq<u8>,
) -> Seq<u8> {
    let s1 = absorbed_state(state, label_encoding("shuffle_argument"));
    let s2 = absorbed_state(
        s1,
        point_encoding(params.public_key) + commit_key_encoding(params.commit_key),
    );
    let s3 = absorbed_state(
        s2,
        ciphertexts_encoding(statement.input_ciphers) + ciphertexts_encoding(
            statement.shuffled_ciphers,
        ) + dimension_encoding(statement.m) + dimension_encoding(statement.n),
    );
    absorbed_state(s3, points_encoding(a_commits))
}

/// The first challenge.
pub open spec fn challenge_x(
    params: ParametersModel,
    statement: StatementModel,
    a_commits: Seq<nat>,
    state: Seq<u8>,
) -> nat {
    challenge(first_transcript(params, statement, a_commits, state))
}

/// The state of the transcript when the second challenge is squeezed: the commitments of the
/// second round have been absorbed as well.
pub open spec fn second_transcript(
    params: ParametersModel,
    statement: StatementModel,
    a_commits: Seq<nat>,
    b_commits: Seq<nat>,
    state: Seq<u8>,
) -> Seq<u8> {
    absorbed_state(
        squeezed_state(first_transcript(params, statement, a_commits, state)),
        points_encoding(b_commits),
    )
}

/// The second challenge.
pub open spec fn challenge_y(
    params: ParametersModel,
    statement: StatementModel,
    a_commits: Seq<nat>,
    b_commits: Seq<nat>,
    state: Seq<u8>,
) -> nat {
    challenge(second_transcript(params, statement, a_commits, b_commits, state))
}

/// The third challenge.
pub open spec fn challenge_z(
    params: ParametersModel,
    statement: StatementModel,
    a_commits: Seq<nat>,
    b_commits: Seq<nat>,
    state: Seq<u8>,
) -> nat {
    challenge(squeezed_state(second_transcript(params, statement, a_commits, b_commits, state)))
}

/// The state of the transcript after all three challenges were squeezed.
pub open spec fn challenged_state(
    params: ParametersModel,
    statement: StatementModel,
    a_commits: Seq<nat>,
    b_commits: Seq<nat>,
    state: Seq<u8>,
) -> Seq<u8> {
    squeezed_state(
        squeezed_state(second_transcript(params, statement, a_commits, b_commits, state)),
    )
}

/// The parameters of the product argument that the argument reduces to.
pub open spec fn product_parameters(params: ParametersModel, statement: StatementModel) -> product_argument::ParametersModel {
    product_argument::ParametersModel {
        commit_key: params.commit_key,
        m: statement.m,
        n: statement.n,
    }
}

/// The parameters of the multi-exponentiation argument that the argument reduces to.
pub open spec fn multi_exp_parameters(params: ParametersModel) -> multi_exponentiation_argument::ParametersModel {
    multi_exponentiation_argument::ParametersModel {
        encrypt_parameters: params.encrypt_parameters,
        public_key: params.public_key,
        commit_key: params.commit_key,
        generator: params.generator,
    }
}

/// The statement of the multi-exponentiation argument that the argument reduces to, for a
/// given claimed product.
pub open spec fn multi_exp_statement(
    statement: StatementModel,
    product: (nat, nat),
    b_commits: Seq<nat>,
) -> multi_exponentiation_argument::StatementModel {
    multi_exponentiation_argument::StatementModel {
        shuffled_ciphers: rows(statement.shuffled_ciphers, statement.m, statement.n),
        product,
        commitments_to_exponents: b_commits,
    }
}

/// Absorbs the label, the public data, the statement and the commitments of the first round,
/// and squeezes the first challenge.
pub fn first_challenge(
    parameters: &Parameters,
    statement: &Statement,
    a_commits: &Vec<Commitment>,
    fs_rng: &mut Transcript,
) -> (x: Scalar)
    ensures
        x@ == challenge_x(parameters@, statement@, commitment_values(a_commits@), old(fs_rng)@),
        final(fs_rng)@ == squeezed_state(
            first_transcript(parameters@, statement@, commitment_values(a_commits@), old(fs_rng)@),
        ),
{
    let mut buf: Vec<u8> = Vec::new();
    write_label(&mut buf, "shuffle_argument");
    assert(buf@ =~= label_encoding("shuffle_argument"));
    fs_rng.absorb(buf.as_slice());

    let mut buf: Vec<u8> = Vec::new();
    write_point(&mut buf, parameters.public_key);
    parameters.commit_key.write(&mut buf);
    assert(buf@ =~= point_encoding(parameters@.public_key) + commit_key_encoding(
        parameters@.commit_key,
    ));
    fs_rng.absorb(buf.as_slice());

    let mut buf: Vec<u8> = Vec::new();
    Ciphertext::write_all(&mut buf, statement.input_ciphers);
    Ciphertext::write_all(&mut buf, statement.shuffled_ciphers);
    write_dimension(&mut buf, statement.m);
    write_dimension(&mut buf, statement.n);
    assert(buf@ =~= ciphertexts_encoding(statement@.input_ciphers) + ciphertexts_encoding(
        statement@.shuffled_ciphers,
    ) + dimension_encoding(statement@.m) + dimension_encoding(statement@.n));
    fs_rng.absorb(buf.as_slice());

    let mut buf: Vec<u8> = Vec::new();
    Commitment::write_all(&mut buf, a_commits);
    assert(buf@ =~= points_encoding(commitment_values(a_commits@)));
    fs_rng.absorb(buf.as_slice());

    fs_rng.squeeze_scalar()
}

/// Absorbs the commitments of the second round and squeezes the second and the third
/// challenge.
pub fn later_challenges(b_commits: &Vec<Commitment>, fs_rng: &mut Transcript) -> (r: (
    Scalar,
    Scalar,
))
    ensures
        r.0@ == challenge(absorbed_state(old(fs_rng)@, points_encoding(commitment_values(b_commits@)))),
        r.1@ == challenge(
            squeezed_state(
                absorbed_state(old(fs_rng)@, points_encoding(commitment_values(b_commits@))),
            ),
        ),
        final(fs_rng)@ == squeezed_state(
            squeezed_state(
                absorbed_state(old(fs_rng)@, points_encoding(commitment_values(b_commits@))),
            ),
        ),
{
    let mut buf: Vec<u8> = Vec::new();
    Commitment::write_all(&mut buf, b_commits);
    assert(buf@ =~= points_encoding(commitment_values(b_commits@)));
    fs_rng.absorb(buf.as_slice());
    let y = fs_rng.squeeze_scalar();
    let z = fs_rng.squeeze_scalar();
    (y, z)
}

/// The powers `x, x^2, .., x^size` of the first challenge.
pub fn challenge_powers_of(x: Scalar, size: usize) -> (r: Vec<Scalar>)
    requires
        size < usize::MAX,
    ensures
        scalar_values(r@) == rising_powers(x@, size as nat),
        r@.len() == size,
{
    let all = scalar_powers(x, size);
    let r = slice_of(&all, 1, size + 1);
    assert(scalar_values(r@) =~= rising_powers(x@, size as nat)) by {
        assert forall|i: int| 0 <= i < size implies scalar_values(r@)[i] == rising_powers(
            x@,
            size as nat,
        )[i] by {
            assert(scalar_values(all@)[i + 1] == all@[i + 1]@);
        }
    }
    r
}

/// The rows of the matrix that the ciphertexts of a valid statement are arranged in.
pub fn cipher_rows_of(ciphers: &Vec<Ciphertext>, m: usize, n: usize) -> (r: Vec<Vec<Ciphertext>>)
    requires
        m * n == ciphers@.len(),
    ensures
        ciphertext_rows(r@) == rows(ciphertext_values(ciphers@), m as nat, n as nat),
        r@.len() == m,
{
    match reshape(ciphers, m, n) {
        Ok(matrix) => {
            assert(ciphertext_rows(matrix@) =~= rows(
                ciphertext_values(ciphers@),
                m as nat,
                n as nat,
            )) by {
                assert forall|i: int| 0 <= i < m implies ciphertext_rows(matrix@)[i] == rows(
                    ciphertext_values(ciphers@),
                    m as nat,
                    n as nat,
                )[i] by {
                    assert(0 <= i * n && i * n + n <= m * n) by (nonlinear_arith)
                        requires
                            0 <= i < m,
                            0 <= n,
                    ;
                    assert(matrix@[i]@ == ciphers@.subrange(i * n, i * n + n));
                    assert(ciphertext_values(matrix@[i]@) =~= ciphertext_values(
                        ciphers@,
                    ).subrange(i * n, i * n + n));
                }
            }
            matrix
        },
        Err(_) => {
            assert(false);
            Vec::new()
        },
    }
}

/// The rows of the matrix that a vector of `m * n` scalars is arranged in.
pub fn scalar_rows_of(v: &Vec<Scalar>, m: usize, n: usize) -> (r: Vec<Vec<Scalar>>)
    requires
        m * n == v@.len(),
    ensures
        matrix_values(r@) == rows(scalar_values(v@), m as nat, n as nat),
        r@.len() == m,
        has_shape(matrix_values(r@), m as nat, n as nat),
{
    match reshape(v, m, n) {
        Ok(matrix) => {
            assert forall|i: int| 0 <= i < m implies matrix_values(matrix@)[i]
                == rows(scalar_values(v@), m as nat, n as nat)[i] && (
            #[trigger] matrix_values(matrix@)[i]).len() == n by {
                assert(0 <= i * n && i * n + n <= m * n) by (nonlinear_arith)
                    requires
                        0 <= i < m,
                        0 <= n,
                ;
                assert(matrix@[i]@ == v@.subrange(i * n, i * n + n));
                assert(scalar_values(matrix@[i]@) =~= scalar_values(v@).subrange(
                    i * n,
                    i * n + n,
                ));
            }
            assert(matrix_values(matrix@) =~= rows(
                scalar_values(v@),
                m as nat,
                n as nat,
            ));
            matrix
        },
        Err(_) => {
            assert(false);
            Vec::new()
        },
    }
}

/// The shuffle argument as an argument of knowledge.
pub struct ShuffleArgument<'a> {
    _marker: core::marker::PhantomData<&'a ()>,
}

impl<'a> ArgumentOfKnowledge for ShuffleArgument<'a> {
    type CommonReferenceString = Parameters<'a>;

    type Statement = Statement<'a>;

    type Witness = Witness<'a>;

    type Proof = verification::Proof;

    open spec fn admissible(common_reference_string: &Parameters<'a>, statement: &Statement<'a>) -> bool {
        2 * statement.m + 1 <= usize::MAX && statement.input_ciphers@.len() < usize::MAX
    }

    open spec fn verdict(
        common_reference_string: &Parameters<'a>,
        statement: &Statement<'a>,
        proof: &verification::Proof,
        state: Seq<u8>,
    ) -> Result<(), ErrorModel> {
        verification::verification(common_reference_string@, statement@, proof@, state)
    }

    fn prove(
        rng: &mut rand::rngs::StdRng,
        common_reference_string: &Parameters<'a>,
        statement: &Statement<'a>,
        witness: &Witness<'a>,
        fs_rng: &mut Transcript,
    ) -> (r: Result<verification::Proof, CryptoError>)
        ensures
            exists|rho: prover::RandomnessModel| #[trigger]
                prover::run_with(
                    common_reference_string@,
                    statement@,
                    witness@,
                    rho,
                    old(fs_rng)@,
                    prover::proof_outcome(r),
                    final(fs_rng)@,
                ),
    {
        let prover = prover::Prover::new(common_reference_string, statement, witness);
        prover.prove(rng, fs_rng)
    }

    fn verify(
        common_reference_string: &Parameters<'a>,
        statement: &Statement<'a>,
        proof: &verification::Proof,
        fs_rng: &mut Transcript,
    ) -> (r: Result<(), CryptoError>)
        ensures
            final(fs_rng)@ == verification::verified_state(
                common_reference_string@,
                statement@,
                proof@,
                old(fs_rng)@,
            ),
    {
        proof.verify(common_reference_string, statement, fs_rng)
    }
}

} // verus!
