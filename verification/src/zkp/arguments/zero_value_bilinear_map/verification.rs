//! The proof of the zero-value argument, and its verifier.
use super::{
    label, mapping_failure, y_weighted, Parameters, ParametersModel, Statement, StatementModel,
};
use crate::error::{outcome, rejection, CryptoError, ErrorModel};
use crate::field::{fadd, powers, scalar_values, weighted_sum, Scalar};
use crate::group::point_encoding;
use crate::vector_commitment::pedersen::{
    commit_key_encoding, commitment, commitment_values, Commitment, PedersenCommitment,
};
use crate::zkp::arguments::{reversed, scalar_powers, slice_of};
use crate::zkp::transcript::{
    absorbed_state, challenge, dimension_encoding, label_encoding, points_encoding,
    squeezed_state, write_dimension, write_label, Transcript,
};
use vstd::prelude::*;

verus! {

/// A proof of the zero-value argument.
#[derive(Clone, Debug)]
pub struct Proof {
    // Round 1
    pub a_0_commit: Commitment,
    pub b_m_commit: Commitment,
    pub vector_of_committed_diagonals: Vec<Commitment>,
    // Round 2
    pub a_blinded: Vec<Scalar>,
    pub b_blinded: Vec<Scalar>,
    pub r_blinded: Scalar,
    pub s_blinded: Scalar,
    pub t_blinded: Scalar,
}

/// The mathematical content of a proof.
pub struct ProofModel {
    pub a_0_commit: nat,
    pub b_m_commit: nat,
    pub vector_of_committed_diagonals: Seq<nat>,
    pub a_blinded: Seq<nat>,
    pub b_blinded: Seq<nat>,
    pub r_blinded: nat,
    pub s_blinded: nat,
    pub t_blinded: nat,
}

impl View for Proof {
    type V = ProofModel;

    open spec fn view(&self) -> ProofModel {
        ProofModel {
            a_0_commit: self.a_0_commit@,
            b_m_commit: self.b_m_commit@,
            vector_of_committed_diagonals: commitment_values(self.vector_of_committed_diagonals@),
            a_blinded: scalar_values(self.a_blinded@),
            b_blinded: scalar_values(self.b_blinded@),
            r_blinded: self.r_blinded@,
            s_blinded: self.s_blinded@,
            t_blinded: self.t_blinded@,
        }
    }
}

/// The checks that the verifier makes before it touches the transcript: the proof has a
/// diagonal `m + 1`, and the commitment to it is the commitment to zero with no randomness.
pub open spec fn early_check(params: ParametersModel, proof: ProofModel) -> Result<
    (),
    ErrorModel,
> {
    if proof.vector_of_committed_diagonals.len() <= params.m + 1 {
        rejection(label())
    } else if params.commit_key.g.len() < 1 {
        Err(ErrorModel::CommitmentLength("Pedersen"@, 1, 0))
    } else if proof.vector_of_committed_diagonals[params.m as int + 1] != commitment(
        params.commit_key,
        seq![0nat],
        0,
    ) {
        rejection(label())
    } else {
        Ok(())
    }
}

/// The state of the transcript when the challenge is squeezed: the label, the parameters, the
/// first message and the statement have been absorbed.
pub open spec fn transcript(
    params: ParametersModel,
    statement: StatementModel,
    a_0_commit: nat,
    b_m_commit: nat,
    diagonals: Seq<nat>,
    state: Seq<u8>,
) -> Seq<u8> {
    let s1 = absorbed_state(state, label_encoding("zero_argument"));
    let s2 = absorbed_state(
        s1,
        commit_key_encoding(params.commit_key) + dimension_encoding(params.m) + dimension_encoding(
            params.n,
        ),
    );
    let s3 = absorbed_state(s2, point_encoding(a_0_commit) + point_encoding(b_m_commit));
    absorbed_state(
        s3,
        points_encoding(statement.commitment_to_a) + points_encoding(statement.commitment_to_b)
            + points_encoding(diagonals),
    )
}

/// The checks that the verifier makes with the challenge `x`, in their order: the blinded
/// rows open the combinations of the commitments, and the blinded diagonal opens the
/// combination of the committed diagonals.
pub open spec fn late_check(
    params: ParametersModel,
    statement: StatementModel,
    proof: ProofModel,
    x: nat,
) -> Result<(), ErrorModel> {
    let m = params.m;
    let ck = params.commit_key;
    let all = powers(x, 2 * m + 1);
    let rising = all.subrange(1, m as int + 1);
    if statement.commitment_to_a.len() != m {
        Err(ErrorModel::DotProductLength(m, statement.commitment_to_a.len()))
    } else if proof.a_blinded.len() > ck.g.len() {
        Err(ErrorModel::CommitmentLength("Pedersen"@, proof.a_blinded.len(), ck.g.len()))
    } else if fadd(proof.a_0_commit, weighted_sum(rising, statement.commitment_to_a, m))
        != commitment(ck, proof.a_blinded, proof.r_blinded) {
        rejection(label())
    } else if statement.commitment_to_b.len() != m {
        Err(ErrorModel::DotProductLength(m, statement.commitment_to_b.len()))
    } else if proof.b_blinded.len() > ck.g.len() {
        Err(ErrorModel::CommitmentLength("Pedersen"@, proof.b_blinded.len(), ck.g.len()))
    } else if fadd(proof.b_m_commit, weighted_sum(rising.reverse(), statement.commitment_to_b, m))
        != commitment(ck, proof.b_blinded, proof.s_blinded) {
        rejection(label())
    } else if proof.vector_of_committed_diagonals.len() != 2 * m + 1 {
        Err(ErrorModel::DotProductLength(2 * m + 1, proof.vector_of_committed_diagonals.len()))
    } else if mapping_failure(
        proof.a_blinded.len(),
        proof.b_blinded.len(),
        statement.bilinear_map.n,
    ) is Some {
        Err(
            mapping_failure(
                proof.a_blinded.len(),
                proof.b_blinded.len(),
                statement.bilinear_map.n,
            )->Some_0,
        )
    } else if weighted_sum(all, proof.vector_of_committed_diagonals, 2 * m + 1) != commitment(
        ck,
        seq![
            y_weighted(
                statement.bilinear_map.y,
                proof.a_blinded,
                proof.b_blinded,
                statement.bilinear_map.n,
            ),
        ],
        proof.t_blinded,
    ) {
        rejection(label())
    } else {
        Ok(())
    }
}

/// What the verifier returns on a proof, for a transcript in the given state.
pub open spec fn verification(
    params: ParametersModel,
    statement: StatementModel,
    proof: ProofModel,
    state: Seq<u8>,
) -> Result<(), ErrorModel> {
    if early_check(params, proof) is Err {
        early_check(params, proof)
    } else {
        late_check(
            params,
            statement,
            proof,
            challenge(
                transcript(
                    params,
                    statement,
                    proof.a_0_commit,
                    proof.b_m_commit,
                    proof.vector_of_committed_diagonals,
                    state,
                ),
            ),
        )
    }
}

/// The state in which the verifier leaves the transcript.
pub open spec fn verified_state(
    params: ParametersModel,
    statement: StatementModel,
    proof: ProofModel,
    state: Seq<u8>,
) -> Seq<u8> {
    if early_check(params, proof) is Err {
        state
    } else {
        squeezed_state(
            transcript(
                params,
                statement,
                proof.a_0_commit,
                proof.b_m_commit,
                proof.vector_of_committed_diagonals,
                state,
            ),
        )
    }
}

/// Absorbs the label, the parameters, the first message and the statement, and squeezes the
/// challenge.
pub fn derive_challenge(
    proof_parameters: &Parameters,
    statement: &Statement,
    a_0_commit: &Commitment,
    b_m_commit: &Commitment,
    diagonals: &Vec<Commitment>,
    fs_rng: &mut Transcript,
) -> (x: Scalar)
    ensures
        x@ == challenge(
            transcript(
                proof_parameters@,
                statement@,
                a_0_commit@,
                b_m_commit@,
                commitment_values(diagonals@),
                old(fs_rng)@,
            ),
        ),
        final(fs_rng)@ == squeezed_state(
            transcript(
                proof_parameters@,
                statement@,
                a_0_commit@,
                b_m_commit@,
                commitment_values(diagonals@),
                old(fs_rng)@,
            ),
        ),
{
    let mut buf: Vec<u8> = Vec::new();
    write_label(&mut buf, "zero_argument");
    assert(buf@ =~= label_encoding("zero_argument"));
    fs_rng.absorb(buf.as_slice());

    let mut buf: Vec<u8> = Vec::new();
    proof_parameters.commit_key.write(&mut buf);
    write_dimension(&mut buf, proof_parameters.m);
    write_dimension(&mut buf, proof_parameters.n);
    assert(buf@ =~= commit_key_encoding(proof_parameters@.commit_key) + dimension_encoding(
        proof_parameters@.m,
    ) + dimension_encoding(proof_parameters@.n));
    fs_rng.absorb(buf.as_slice());

    let mut buf: Vec<u8> = Vec::new();
    a_0_commit.write(&mut buf);
    b_m_commit.write(&mut buf);
    assert(buf@ =~= point_encoding(a_0_commit@) + point_encoding(b_m_commit@));
    fs_rng.absorb(buf.as_slice());

    let mut buf: Vec<u8> = Vec::new();
    Commitment::write_all(&mut buf, statement.commitment_to_a);
    Commitment::write_all(&mut buf, statement.commitment_to_b);
    Commitment::write_all(&mut buf, diagonals);
    assert(buf@ =~= points_encoding(statement@.commitment_to_a) + points_encoding(
        statement@.commitment_to_b,
    ) + points_encoding(commitment_values(diagonals@)));
    fs_rng.absorb(buf.as_slice());

    fs_rng.squeeze_scalar()
}

impl Proof {
    /// Verifies the proof against the statement.
    pub fn verify(
        &self,
        proof_parameters: &Parameters,
        statement: &Statement,
        fs_rng: &mut Transcript,
    ) -> (r: Result<(), CryptoError>)
        requires
            2 * proof_parameters.m + 1 <= usize::MAX,
        ensures
            outcome(r) == verification(proof_parameters@, statement@, self@, old(fs_rng)@),
            final(fs_rng)@ == verified_state(proof_parameters@, statement@, self@, old(fs_rng)@),
    {
        let m = proof_parameters.m;
        if self.vector_of_committed_diagonals.len() <= m + 1 {
            return Err(CryptoError::verification_failure("Zero Argument (5.2)"));
        }
        let mut zero_vector: Vec<Scalar> = Vec::new();
        zero_vector.push(Scalar::zero());
        assert(scalar_values(zero_vector@) =~= seq![0nat]);
        let zero_commit = match PedersenCommitment::commit(
            proof_parameters.commit_key,
            &zero_vector,
            Scalar::zero(),
        ) {
            Ok(c) => c,
            Err(e) => {
                return Err(e);
            },
        };
        if !self.vector_of_committed_diagonals[m + 1].equals(&zero_commit) {
            return Err(CryptoError::verification_failure("Zero Argument (5.2)"));
        }
        assert(early_check(proof_parameters@, self@) is Ok);

        let x = derive_challenge(
            proof_parameters,
            statement,
            &self.a_0_commit,
            &self.b_m_commit,
            &self.vector_of_committed_diagonals,
            fs_rng,
        );

        // All powers of the challenge from 0 to the number of diagonals.
        let challenge_powers = scalar_powers(x, 2 * m);
        let first_m_non_zero_powers = slice_of(&challenge_powers, 1, m + 1);
        let first_m_non_zero_powers_reversed = reversed(&first_m_non_zero_powers);
        proof {
            let all = powers(x@, (2 * m + 1) as nat);
            assert(scalar_values(first_m_non_zero_powers@) =~= all.subrange(1, m + 1));
            assert(scalar_values(first_m_non_zero_powers_reversed@) =~= all.subrange(
                1,
                m + 1,
            ).reverse());
        }

        // The commitments to A against the commitment to the blinded a.
        let combined_a = match Commitment::dot_product(
            &first_m_non_zero_powers,
            statement.commitment_to_a,
        ) {
            Ok(c) => c,
            Err(e) => {
                return Err(e);
            },
        };
        let left = self.a_0_commit.add(&combined_a);
        let right = match PedersenCommitment::commit(
            proof_parameters.commit_key,
            &self.a_blinded,
            self.r_blinded,
        ) {
            Ok(c) => c,
            Err(e) => {
                return Err(e);
            },
        };
        if !left.equals(&right) {
            return Err(CryptoError::verification_failure("Zero Argument (5.2)"));
        }

        // The commitments to B against the commitment to the blinded b.
        let combined_b = match Commitment::dot_product(
            &first_m_non_zero_powers_reversed,
            statement.commitment_to_b,
        ) {
            Ok(c) => c,
            Err(e) => {
                return Err(e);
            },
        };
        let left = self.b_m_commit.add(&combined_b);
        let right = match PedersenCommitment::commit(
            proof_parameters.commit_key,
            &self.b_blinded,
            self.s_blinded,
        ) {
            Ok(c) => c,
            Err(e) => {
                return Err(e);
            },
        };
        if !left.equals(&right) {
            return Err(CryptoError::verification_failure("Zero Argument (5.2)"));
        }

        // The committed diagonals against the commitment to the map of the blinded vectors.
        let left = match Commitment::dot_product(
            &challenge_powers,
            &self.vector_of_committed_diagonals,
        ) {
            Ok(c) => c,
            Err(e) => {
                return Err(e);
            },
        };
        let a_star_b = match statement.bilinear_map.compute_mapping(
            &self.a_blinded,
            &self.b_blinded,
        ) {
            Ok(v) => v,
            Err(e) => {
                return Err(e);
            },
        };
        let mut mapped: Vec<Scalar> = Vec::new();
        mapped.push(a_star_b);
        assert(scalar_values(mapped@) =~= seq![a_star_b@]);
        let right = match PedersenCommitment::commit(
            proof_parameters.commit_key,
            &mapped,
            self.t_blinded,
        ) {
            Ok(c) => c,
            Err(e) => {
                return Err(e);
            },
        };
        if !left.equals(&right) {
            return Err(CryptoError::verification_failure("Zero Argument (5.2)"));
        }

        Ok(())
    }
}

} // verus!
