//! The argument that a ciphertext is the product of committed powers of given ciphertexts.
use crate::error::{CryptoError, ErrorModel};
use crate::field::{fpow, matrix_values, scalar_values, Scalar};
use crate::group::point_encoding;
use crate::homomorphic_encryption::el_gamal::{
    cipher_sum, cipher_weighted_sum, ciphertext_encoding, ciphertext_rows,
    ciphertext_rows_encoding, ciphertexts_encoding, Ciphertext, Generator, PublicKey,
};
use crate::homomorphic_encryption::el_gamal;
use crate::vector_commitment::pedersen::{
    commit_key_encoding, commitment_values, CommitKey, CommitKeyModel, Commitment,
};
use crate::zkp::ArgumentOfKnowledge;
use crate::zkp::arguments::scaled;
use crate::zkp::transcript::{
    absorbed_state, challenge, dimension_encoding, label_encoding, points_encoding,
    squeezed_state, write_dimension, write_label, write_point, Transcript,
};
use vstd::prelude::*;

pub mod completeness;
pub mod prover;
pub mod verification;

verus! {

/// The public parameters of the argument: the parameters and the public key of the
/// encryption, the commit key, and the generator that turns scalars into plaintexts.
pub struct Parameters<'a> {
    pub encrypt_parameters: &'a el_gamal::Parameters,
    pub public_key: &'a PublicKey,
    pub commit_key: &'a CommitKey,
    pub generator: &'a Generator,
}

/// The mathematical content of the parameters.
pub struct ParametersModel {
    pub encrypt_parameters: nat,
    pub public_key: nat,
    pub commit_key: CommitKeyModel,
    pub generator: nat,
}

impl<'a> View for Parameters<'a> {
    type V = ParametersModel;

    open spec fn view(&self) -> ParametersModel {
        ParametersModel {
            encrypt_parameters: self.encrypt_parameters@,
            public_key: self.public_key@,
            commit_key: self.commit_key@,
            generator: self.generator@,
        }
    }
}

impl<'a> Parameters<'a> {
    /// The parameters with the given fields.
    pub fn new(
        encrypt_parameters: &'a el_gamal::Parameters,
        public_key: &'a PublicKey,
        commit_key: &'a CommitKey,
        generator: &'a Generator,
    ) -> (r: Parameters<'a>)
        ensures
            r@ == (ParametersModel {
                encrypt_parameters: encrypt_parameters@,
                public_key: public_key@,
                commit_key: commit_key@,
                generator: generator@,
            }),
    {
        Parameters { encrypt_parameters, public_key, commit_key, generator }
    }
}

/// The statement: the rows of a matrix of ciphertexts, the claimed product of their powers,
/// and commitments to the rows of the matrix of exponents.
pub struct Statement<'a> {
    pub shuffled_ciphers: &'a Vec<Vec<Ciphertext>>,
    pub product: Ciphertext,
    pub commitments_to_exponents: &'a Vec<Commitment>,
}

/// The mathematical content of a statement.
pub struct StatementModel {
    pub shuffled_ciphers: Seq<Seq<(nat, nat)>>,
    pub product: (nat, nat),
    pub commitments_to_exponents: Seq<nat>,
}

impl<'a> View for Statement<'a> {
    type V = StatementModel;

    open spec fn view(&self) -> StatementModel {
        StatementModel {
            shuffled_ciphers: ciphertext_rows(self.shuffled_ciphers@),
            product: self.product@,
            commitments_to_exponents: commitment_values(self.commitments_to_exponents@),
        }
    }
}

impl<'a> Statement<'a> {
    /// The statement with the given fields.
    pub fn new(
        shuffled_ciphers: &'a Vec<Vec<Ciphertext>>,
        product: Ciphertext,
        commitments_to_exponents: &'a Vec<Commitment>,
    ) -> (r: Statement<'a>)
        ensures
            r@ == (StatementModel {
                shuffled_ciphers: ciphertext_rows(shuffled_ciphers@),
                product: product@,
                commitments_to_exponents: commitment_values(commitments_to_exponents@),
            }),
    {
        Statement { shuffled_ciphers, product, commitments_to_exponents }
    }
}

/// The witness: the matrix of exponents, the randomness of the commitments to its rows, and
/// the randomness that masks the product.
pub struct Witness<'a> {
    pub matrix_a: &'a Vec<Vec<Scalar>>,
    pub matrix_blinders: &'a Vec<Scalar>,
    pub rho: Scalar,
}

/// The mathematical content of a witness.
pub struct WitnessModel {
    pub matrix_a: Seq<Seq<nat>>,
    pub matrix_blinders: Seq<nat>,
    pub rho: nat,
}

impl<'a> View for Witness<'a> {
    type V = WitnessModel;

    open spec fn view(&self) -> WitnessModel {
        WitnessModel {
            matrix_a: matrix_values(self.matrix_a@),
            matrix_blinders: scalar_values(self.matrix_blinders@),
            rho: self.rho@,
        }
    }
}

impl<'a> Witness<'a> {
    /// The witness with the given fields.
    pub fn new(matrix_a: &'a Vec<Vec<Scalar>>, matrix_blinders: &'a Vec<Scalar>, rho: Scalar) -> (r: Witness<
        'a,
    >)
        ensures
            r@ == (WitnessModel {
                matrix_a: matrix_values(matrix_a@),
                matrix_blinders: scalar_values(matrix_blinders@),
                rho: rho@,
            }),
    {
        Witness { matrix_a, matrix_blinders, rho }
    }
}

/// The label of the protocol in the errors of its verifier.
pub open spec fn label() -> Seq<char> {
    "Multi Exponentiation"@
}

/// The number of rows of the matrix of ciphertexts.
pub open spec fn row_count(statement: StatementModel) -> nat {
    statement.shuffled_ciphers.len()
}

/// The number of columns of the matrix of ciphertexts: the length of its first row.
pub open spec fn column_count(statement: StatementModel) -> nat {
    statement.shuffled_ciphers[0].len()
}

/// The state of the transcript when the challenge is squeezed: the label, the parameters and
/// the statement, then the dimensions, then the first message have been absorbed.
pub open spec fn transcript(
    params: ParametersModel,
    statement: StatementModel,
    a_0_commit: nat,
    commit_b_k: Seq<nat>,
    vector_e_k: Seq<(nat, nat)>,
    state: Seq<u8>,
) -> Seq<u8> {
    let m = row_count(statement);
    let s1 = absorbed_state(
        state,
        label_encoding("multi-exponentiation") + point_encoding(params.public_key)
            + commit_key_encoding(params.commit_key) + points_encoding(
            statement.commitments_to_exponents,
        ) + ciphertext_encoding(statement.product) + ciphertext_rows_encoding(
            statement.shuffled_ciphers,
        ),
    );
    let s2 = absorbed_state(
        s1,
        dimension_encoding(m) + dimension_encoding(column_count(statement)) + dimension_encoding(
            2 * m + 1,
        ),
    );
    absorbed_state(
        s2,
        point_encoding(a_0_commit) + points_encoding(commit_b_k) + ciphertexts_encoding(vector_e_k),
    )
}

/// The sum over the first `upto` rows of ciphertexts of the row raised to the exponents
/// `x^(m-1-i) * a`, where `i` is the index of the row; it fails at the first row whose length
/// is not that of `a`.
pub open spec fn aggregate(
    a: Seq<nat>,
    x: nat,
    rows: Seq<Seq<(nat, nat)>>,
    upto: nat,
) -> Result<(nat, nat), ErrorModel>
    decreases upto,
{
    if upto == 0 {
        Ok((0nat, 0nat))
    } else {
        let i = (upto - 1) as nat;
        match aggregate(a, x, rows, i) {
            Err(e) => Err(e),
            Ok(acc) => if a.len() != rows[i as int].len() {
                Err(ErrorModel::DotProductLength(a.len(), rows[i as int].len()))
            } else {
                Ok(
                    cipher_sum(
                        acc,
                        cipher_weighted_sum(
                            scaled(fpow(x, (rows.len() - 1 - i) as nat), a),
                            rows[i as int],
                            a.len(),
                        ),
                    ),
                )
            },
        }
    }
}

/// Absorbs the label, the parameters, the statement, the dimensions and the first message,
/// and squeezes the challenge.
pub fn derive_challenge(
    proof_parameters: &Parameters,
    statement: &Statement,
    a_0_commit: &Commitment,
    commit_b_k: &Vec<Commitment>,
    vector_e_k: &Vec<Ciphertext>,
    fs_rng: &mut Transcript,
) -> (x: Scalar)
    requires
        statement.shuffled_ciphers@.len() >= 1,
        2 * statement.shuffled_ciphers@.len() + 1 <= usize::MAX,
    ensures
        x@ == challenge(
            transcript(
                proof_parameters@,
                statement@,
                a_0_commit@,
                commitment_values(commit_b_k@),
                el_gamal::ciphertext_values(vector_e_k@),
                old(fs_rng)@,
            ),
        ),
        final(fs_rng)@ == squeezed_state(
            transcript(
                proof_parameters@,
                statement@,
                a_0_commit@,
                commitment_values(commit_b_k@),
                el_gamal::ciphertext_values(vector_e_k@),
                old(fs_rng)@,
            ),
        ),
{
    let m = statement.shuffled_ciphers.len();
    let n = statement.shuffled_ciphers[0].len();
    assert(n == column_count(statement@));
    let mut buf: Vec<u8> = Vec::new();
    write_label(&mut buf, "multi-exponentiation");
    write_point(&mut buf, proof_parameters.public_key);
    proof_parameters.commit_key.write(&mut buf);
    Commitment::write_all(&mut buf, statement.commitments_to_exponents);
    statement.product.write(&mut buf);
    Ciphertext::write_rows(&mut buf, statement.shuffled_ciphers);
    assert(buf@ =~= label_encoding("multi-exponentiation") + point_encoding(
        proof_parameters@.public_key,
    ) + commit_key_encoding(proof_parameters@.commit_key) + points_encoding(
        statement@.commitments_to_exponents,
    ) + ciphertext_encoding(statement@.product) + ciphertext_rows_encoding(
        statement@.shuffled_ciphers,
    ));
    fs_rng.absorb(buf.as_slice());

    let mut buf: Vec<u8> = Vec::new();
    write_dimension(&mut buf, m);
    write_dimension(&mut buf, n);
    write_dimension(&mut buf, 2 * m + 1);
    assert(buf@ =~= dimension_encoding(m as nat) + dimension_encoding(n as nat)
        + dimension_encoding((2 * m + 1) as nat));
    fs_rng.absorb(buf.as_slice());

    let mut buf: Vec<u8> = Vec::new();
    a_0_commit.write(&mut buf);
    Commitment::write_all(&mut buf, commit_b_k);
    Ciphertext::write_all(&mut buf, vector_e_k);
    assert(buf@ =~= point_encoding(a_0_commit@) + points_encoding(commitment_values(commit_b_k@))
        + ciphertexts_encoding(el_gamal::ciphertext_values(vector_e_k@)));
    fs_rng.absorb(buf.as_slice());

    fs_rng.squeeze_scalar()
}

/// The multi-exponentiation argument as an argument of knowledge.
pub struct MultiExponentiation<'a> {
    _marker: core::marker::PhantomData<&'a ()>,
}

impl<'a> ArgumentOfKnowledge for MultiExponentiation<'a> {
    type CommonReferenceString = Parameters<'a>;

    type Statement = Statement<'a>;

    type Witness = Witness<'a>;

    type Proof = verification::Proof;

    open spec fn admissible(common_reference_string: &Parameters<'a>, statement: &Statement<'a>) -> bool {
        2 * statement.shuffled_ciphers@.len() + 1 <= usize::MAX
    }

    open spec fn verdict(
        common_reference_string: &Parameters<'a>,
        statement: &Statement<'a>,
        proof: &verification::Proof,
        state: Seq<u8>,
    ) -> Result<(), ErrorModel> {
        verification::verification(common_reference_string@, statement@, proof@, state)
    }

    fn prove(
        rng: &mut rand::rngs::StdRng,
        common_reference_string: &Parameters<'a>,
        statement: &Statement<'a>,
        witness: &Witness<'a>,
        fs_rng: &mut Transcript,
    ) -> (r: Result<verification::Proof, CryptoError>)
        ensures
            exists|rho: prover::RandomnessModel| #[trigger]
                prover::run_with(
                    common_reference_string@,
                    statement@,
                    witness@,
                    rho,
                    old(fs_rng)@,
                    prover::proof_outcome(r),
                    final(fs_rng)@,
                ),
    {
        let prover = prover::Prover::new(common_reference_string, statement, witness);
        prover.prove(rng, fs_rng)
    }

    fn verify(
        common_reference_string: &Parameters<'a>,
        statement: &Statement<'a>,
        proof: &verification::Proof,
        fs_rng: &mut Transcript,
    ) -> (r: Result<(), CryptoError>)
        ensures
            final(fs_rng)@ == verification::verified_state(
                common_reference_string@,
                statement@,
                proof@,
                old(fs_rng)@,
            ),
    {
        proof.verify(common_reference_string, statement, fs_rng)
    }
}

} // verus!
