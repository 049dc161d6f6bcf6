//! The proof of the multi-exponentiation argument, and its verifier.
use super::{
    aggregate, derive_challenge, label, row_count, transcript, Parameters, ParametersModel,
    Statement, StatementModel,
};
use crate::error::{outcome, rejection, CryptoError, ErrorModel};
use crate::field::{fadd, fmul, fpow, powers, scalar_values, weighted_sum, Scalar};
use crate::homomorphic_encryption::el_gamal::{
    cipher_sum, cipher_weighted_sum, ciphertext_rows, ciphertext_values, encryption, Ciphertext,
    ElGamal,
};
use crate::vector_commitment::pedersen::{
    commitment, commitment_values, Commitment, PedersenCommitment,
};
use crate::zkp::arguments::{scalar_powers, scale, scaled, slice_of};
use crate::zkp::transcript::{challenge, squeezed_state, Transcript};
use vstd::prelude::*;

verus! {

/// A proof of the multi-exponentiation argument.
#[derive(Clone, Debug)]
pub struct Proof {
    // Round 1
    pub a_0_commit: Commitment,
    pub commit_b_k: Vec<Commitment>,
    pub vector_e_k: Vec<Ciphertext>,
    // Round 2
    pub r_blinded: Scalar,
    pub b_blinded: Scalar,
    pub s_blinded: Scalar,
    pub tau_blinded: Scalar,
    pub a_blinded: Vec<Scalar>,
}

/// The mathematical content of a proof.
pub struct ProofModel {
    pub a_0_commit: nat,
    pub commit_b_k: Seq<nat>,
    pub vector_e_k: Seq<(nat, nat)>,
    pub r_blinded: nat,
    pub b_blinded: nat,
    pub s_blinded: nat,
    pub tau_blinded: nat,
    pub a_blinded: Seq<nat>,
}

impl View for Proof {
    type V = ProofModel;

    open spec fn view(&self) -> ProofModel {
        ProofModel {
            a_0_commit: self.a_0_commit@,
            commit_b_k: commitment_values(self.commit_b_k@),
            vector_e_k: ciphertext_values(self.vector_e_k@),
            r_blinded: self.r_blinded@,
            b_blinded: self.b_blinded@,
            s_blinded: self.s_blinded@,
            tau_blinded: self.tau_blinded@,
            a_blinded: scalar_values(self.a_blinded@),
        }
    }
}

/// The checks that the verifier makes with the challenge `x`, in their order, for a statement
/// with at least one row of ciphertexts.
pub open spec fn late_check(
    params: ParametersModel,
    statement: StatementModel,
    proof: ProofModel,
    x: nat,
) -> Result<(), ErrorModel> {
    let m = row_count(statement);
    let ck = params.commit_key;
    let all = powers(x, 2 * m + 1);
    if proof.commit_b_k.len() <= m {
        rejection(label())
    } else if ck.g.len() < 1 {
        Err(ErrorModel::CommitmentLength("Pedersen"@, 1, 0))
    } else if proof.commit_b_k[m as int] != commitment(ck, seq![0nat], 0) {
        rejection(label())
    } else if proof.vector_e_k.len() <= m || proof.vector_e_k[m as int] != statement.product {
        rejection(label())
    } else if statement.commitments_to_exponents.len() != m {
        Err(ErrorModel::DotProductLength(m, statement.commitments_to_exponents.len()))
    } else if proof.a_blinded.len() > ck.g.len() {
        Err(ErrorModel::CommitmentLength("Pedersen"@, proof.a_blinded.len(), ck.g.len()))
    } else if fadd(
        weighted_sum(all.subrange(1, m as int + 1), statement.commitments_to_exponents, m),
        proof.a_0_commit,
    ) != commitment(ck, proof.a_blinded, proof.r_blinded) {
        rejection(label())
    } else if proof.commit_b_k.len() != 2 * m + 1 {
        Err(ErrorModel::DotProductLength(2 * m + 1, proof.commit_b_k.len()))
    } else if weighted_sum(all, proof.commit_b_k, 2 * m + 1) != commitment(
        ck,
        seq![proof.b_blinded],
        proof.s_blinded,
    ) {
        rejection(label())
    } else if proof.vector_e_k.len() != 2 * m + 1 {
        Err(ErrorModel::DotProductLength(2 * m + 1, proof.vector_e_k.len()))
    } else {
        match aggregate(proof.a_blinded, x, statement.shuffled_ciphers, m) {
            Err(e) => Err(e),
            Ok(sum) => if cipher_weighted_sum(all, proof.vector_e_k, 2 * m + 1) != cipher_sum(
                encryption(
                    params.encrypt_parameters,
                    params.public_key,
                    fmul(proof.b_blinded, params.generator),
                    proof.tau_blinded,
                ),
                sum,
            ) {
                rejection(label())
            } else {
                Ok(())
            },
        }
    }
}

/// The state of the transcript when the verifier squeezes the challenge.
pub open spec fn verifying_transcript(
    params: ParametersModel,
    statement: StatementModel,
    proof: ProofModel,
    state: Seq<u8>,
) -> Seq<u8> {
    transcript(params, statement, proof.a_0_commit, proof.commit_b_k, proof.vector_e_k, state)
}

/// What the verifier returns on a proof, for a transcript in the given state. A statement
/// without ciphertexts is rejected.
pub open spec fn verification(
    params: ParametersModel,
    statement: StatementModel,
    proof: ProofModel,
    state: Seq<u8>,
) -> Result<(), ErrorModel> {
    if row_count(statement) == 0 {
        rejection(label())
    } else {
        late_check(
            params,
            statement,
            proof,
            challenge(verifying_transcript(params, statement, proof, state)),
        )
    }
}

/// The state in which the verifier leaves the transcript.
pub open spec fn verified_state(
    params: ParametersModel,
    statement: StatementModel,
    proof: ProofModel,
    state: Seq<u8>,
) -> Seq<u8> {
    if row_count(statement) == 0 {
        state
    } else {
        squeezed_state(verifying_transcript(params, statement, proof, state))
    }
}

/// The sum over the rows of ciphertexts of the row raised to the exponents `x^(m-1-i) * a`.
pub(crate) fn aggregate_rows(a: &Vec<Scalar>, challenge_powers: &Vec<Scalar>, rows: &Vec<Vec<Ciphertext>>, Ghost(x): Ghost<nat>) -> (r: Result<
    Ciphertext,
    CryptoError,
>)
    requires
        challenge_powers@.len() >= rows@.len(),
        forall|i: int|
            0 <= i < challenge_powers@.len() ==> (#[trigger] challenge_powers@[i])@ == fpow(
                x,
                i as nat,
            ),
    ensures
        match r {
            Ok(c) => aggregate(
                scalar_values(a@),
                x,
                ciphertext_rows(rows@),
                rows@.len(),
            ) == Ok::<(nat, nat), ErrorModel>(c@),
            Err(e) => aggregate(
                scalar_values(a@),
                x,
                ciphertext_rows(rows@),
                rows@.len(),
            ) == Err::<(nat, nat), ErrorModel>(e@),
        },
{
    let m = rows.len();
    let ghost model = ciphertext_rows(rows@);
    let mut acc = Ciphertext::zero();
    let mut i: usize = 0;
    while i < m
        invariant
            i <= m,
            m == rows@.len(),
            challenge_powers@.len() >= m,
            model == ciphertext_rows(rows@),
            forall|i: int|
                0 <= i < challenge_powers@.len() ==> (#[trigger] challenge_powers@[i])@ == fpow(
                    x,
                    i as nat,
                ),
            aggregate(scalar_values(a@), x, model, i as nat) == Ok::<(nat, nat), ErrorModel>(acc@),
        decreases m - i,
    {
        let exponents = scale(&challenge_powers[m - 1 - i], a);
        assert(model[i as int] == ciphertext_values(rows@[i as int]@));
        assert(model.len() == m);
        assert(scalar_values(exponents@).len() == a@.len());
        assert(scalar_values(exponents@) == scaled(
            fpow(x, (model.len() - 1 - i) as nat),
            scalar_values(a@),
        ));
        match Ciphertext::dot_product(&exponents, &rows[i]) {
            Ok(term) => {
                acc = acc.add(&term);
            },
            Err(e) => {
                proof {
                    let failing = aggregate(scalar_values(a@), x, model, (i + 1) as nat);
                    assert(failing == Err::<(nat, nat), ErrorModel>(e@));
                    lemma_aggregate_fails_on(scalar_values(a@), x, model, (i + 1) as nat, m as nat);
                }
                return Err(e);
            },
        }
        i = i + 1;
    }
    Ok(acc)
}

/// Once the sum over some rows fails, the sum over more rows fails in the same way.
pub proof fn lemma_aggregate_fails_on(a: Seq<nat>, x: nat, rows: Seq<Seq<(nat, nat)>>, failing: nat, upto: nat)
    requires
        failing <= upto,
        aggregate(a, x, rows, failing) is Err,
    ensures
        aggregate(a, x, rows, upto) == aggregate(a, x, rows, failing),
    decreases upto,
{
    if failing < upto {
        lemma_aggregate_fails_on(a, x, rows, failing, (upto - 1) as nat);
    }
}

impl Proof {
    /// Verifies the proof against the statement.
    pub fn verify(
        &self,
        proof_parameters: &Parameters,
        statement: &Statement,
        fs_rng: &mut Transcript,
    ) -> (r: Result<(), CryptoError>)
        requires
            2 * statement.shuffled_ciphers@.len() + 1 <= usize::MAX,
        ensures
            outcome(r) == verification(proof_parameters@, statement@, self@, old(fs_rng)@),
            final(fs_rng)@ == verified_state(proof_parameters@, statement@, self@, old(fs_rng)@),
    {
        let m = statement.shuffled_ciphers.len();
        if m == 0 {
            return Err(CryptoError::verification_failure("Multi Exponentiation"));
        }
        let x = derive_challenge(
            proof_parameters,
            statement,
            &self.a_0_commit,
            &self.commit_b_k,
            &self.vector_e_k,
            fs_rng,
        );

        // All powers of the challenge from 0 to the number of diagonals.
        let challenge_powers = scalar_powers(x, 2 * m);
        // The powers x, x^2, .., x^m.
        let x_array = slice_of(&challenge_powers, 1, m + 1);
        proof {
            let all = powers(x@, (2 * m + 1) as nat);
            assert(scalar_values(x_array@) =~= all.subrange(1, m + 1));
            assert forall|i: int| 0 <= i < challenge_powers@.len() implies (
            #[trigger] challenge_powers@[i])@ == fpow(x@, i as nat) by {
                assert(scalar_values(challenge_powers@)[i] == challenge_powers@[i]@);
            }
        }

        if self.commit_b_k.len() <= m {
            return Err(CryptoError::verification_failure("Multi Exponentiation"));
        }
        let left = self.commit_b_k[m];
        let mut zero_vector: Vec<Scalar> = Vec::new();
        zero_vector.push(Scalar::zero());
        assert(scalar_values(zero_vector@) =~= seq![0nat]);
        let right = match PedersenCommitment::commit(
            proof_parameters.commit_key,
            &zero_vector,
            Scalar::zero(),
        ) {
            Ok(c) => c,
            Err(e) => {
                return Err(e);
            },
        };
        if !left.equals(&right) {
            return Err(CryptoError::verification_failure("Multi Exponentiation"));
        }

        if self.vector_e_k.len() <= m {
            return Err(CryptoError::verification_failure("Multi Exponentiation"));
        }
        if !self.vector_e_k[m].equals(&statement.product) {
            return Err(CryptoError::verification_failure("Multi Exponentiation"));
        }

        let c_a_x = match Commitment::dot_product(&x_array, statement.commitments_to_exponents) {
            Ok(c) => c,
            Err(e) => {
                return Err(e);
            },
        };
        let verifier_commit_a = match PedersenCommitment::commit(
            proof_parameters.commit_key,
            &self.a_blinded,
            self.r_blinded,
        ) {
            Ok(c) => c,
            Err(e) => {
                return Err(e);
            },
        };
        let left = c_a_x.add(&self.a_0_commit);
        if !left.equals(&verifier_commit_a) {
            return Err(CryptoError::verification_failure("Multi Exponentiation"));
        }

        let c_b_k = match Commitment::dot_product(&challenge_powers, &self.commit_b_k) {
            Ok(c) => c,
            Err(e) => {
                return Err(e);
            },
        };
        let mut blinded: Vec<Scalar> = Vec::new();
        blinded.push(self.b_blinded);
        assert(scalar_values(blinded@) =~= seq![self.b_blinded@]);
        let verif_commit_b = match PedersenCommitment::commit(
            proof_parameters.commit_key,
            &blinded,
            self.s_blinded,
        ) {
            Ok(c) => c,
            Err(e) => {
                assert(false);
                return Err(e);
            },
        };
        if !c_b_k.equals(&verif_commit_b) {
            return Err(CryptoError::verification_failure("Multi Exponentiation"));
        }

        let sum_e_k = match Ciphertext::dot_product(&challenge_powers, &self.vector_e_k) {
            Ok(c) => c,
            Err(e) => {
                return Err(e);
            },
        };
        let message = proof_parameters.generator.mul(&self.b_blinded);
        let aggregate_masking_cipher = match ElGamal::encrypt(
            proof_parameters.encrypt_parameters,
            proof_parameters.public_key,
            &message,
            &self.tau_blinded,
        ) {
            Ok(c) => c,
            Err(e) => {
                assert(false);
                return Err(e);
            },
        };
        let verif_rhs = match aggregate_rows(
            &self.a_blinded,
            &challenge_powers,
            statement.shuffled_ciphers,
            Ghost(x@),
        ) {
            Ok(c) => c,
            Err(e) => {
                return Err(e);
            },
        };
        if !sum_e_k.equals(&aggregate_masking_cipher.add(&verif_rhs)) {
            return Err(CryptoError::verification_failure("Multi Exponentiation"));
        }

        Ok(())
    }
}

} // verus!
