//! The proof of the Hadamard-product argument, and its verifier.
use super::{
    absorb_label, challenge_x, challenge_y, challenged_state, derive_challenges, label,
    labelled_state, later_commitments_of, minus_ones_vector, shift_commitments, zero_parameters,
    zero_statement, Parameters, ParametersModel, Statement, StatementModel,
};
use super::super::zero_value_bilinear_map as zero_argument;
use crate::error::{outcome, rejection, CryptoError, ErrorModel};
use crate::field::{fpow, powers, scalar_values, Scalar};
use crate::vector_commitment::pedersen::{commitment_values, Commitment, PedersenCommitment};
use crate::zkp::arguments::scalar_powers;
use crate::zkp::transcript::Transcript;
use vstd::prelude::*;

verus! {

/// A proof of the Hadamard-product argument.
#[derive(Clone, Debug)]
pub struct Proof {
    // Round 1
    pub b_commits: Vec<Commitment>,
    // Round 2
    pub zero_arg_proof: zero_argument::verification::Proof,
}

/// The mathematical content of a proof.
pub struct ProofModel {
    pub b_commits: Seq<nat>,
    pub zero_arg_proof: zero_argument::verification::ProofModel,
}

impl View for Proof {
    type V = ProofModel;

    open spec fn view(&self) -> ProofModel {
        ProofModel {
            b_commits: commitment_values(self.b_commits@),
            zero_arg_proof: self.zero_arg_proof@,
        }
    }
}

/// The checks that the verifier makes before it squeezes the challenges: the first partial
/// product is committed to as the first row is, and the last as the claimed product is.
pub open spec fn early_check(
    params: ParametersModel,
    statement: StatementModel,
    proof: ProofModel,
) -> Result<(), ErrorModel> {
    if statement.commitment_to_a.len() == 0 || proof.b_commits.len() == 0
        || statement.commitment_to_a[0] != proof.b_commits[0] {
        rejection(label())
    } else if params.m == 0 || proof.b_commits.len() < params.m || statement.commitment_to_b
        != proof.b_commits[params.m - 1] {
        rejection(label())
    } else {
        Ok(())
    }
}

/// What the verifier of the zero-value argument returns on the proof that the proof holds.
pub open spec fn reduced_verification(
    params: ParametersModel,
    statement: StatementModel,
    proof: ProofModel,
    state: Seq<u8>,
) -> Result<(), ErrorModel> {
    zero_argument::verification::verification(
        zero_parameters(params),
        zero_statement(
            params,
            statement,
            proof.b_commits,
            challenge_x(params, proof.b_commits, state),
            challenge_y(params, proof.b_commits, state),
        ),
        proof.zero_arg_proof,
        challenged_state(params, proof.b_commits, state),
    )
}

/// What the verifier returns on a proof, for a transcript in the given state.
pub open spec fn verification(
    params: ParametersModel,
    statement: StatementModel,
    proof: ProofModel,
    state: Seq<u8>,
) -> Result<(), ErrorModel> {
    if early_check(params, statement, proof) is Err {
        early_check(params, statement, proof)
    } else if params.n > params.commit_key.g.len() {
        Err(ErrorModel::CommitmentLength("Pedersen"@, params.n, params.commit_key.g.len()))
    } else if reduced_verification(params, statement, proof, state) is Err {
        rejection(label())
    } else {
        Ok(())
    }
}

/// The state in which the verifier leaves the transcript.
pub open spec fn verified_state(
    params: ParametersModel,
    statement: StatementModel,
    proof: ProofModel,
    state: Seq<u8>,
) -> Seq<u8> {
    if early_check(params, statement, proof) is Err {
        labelled_state(state)
    } else if params.n > params.commit_key.g.len() {
        challenged_state(params, proof.b_commits, state)
    } else {
        zero_argument::verification::verified_state(
            zero_parameters(params),
            zero_statement(
                params,
                statement,
                proof.b_commits,
                challenge_x(params, proof.b_commits, state),
                challenge_y(params, proof.b_commits, state),
            ),
            proof.zero_arg_proof,
            challenged_state(params, proof.b_commits, state),
        )
    }
}

impl Proof {
    /// Verifies the proof against the statement.
    pub fn verify(
        &self,
        proof_parameters: &Parameters,
        statement: &Statement,
        fs_rng: &mut Transcript,
    ) -> (r: Result<(), CryptoError>)
        requires
            2 * proof_parameters.m + 1 <= usize::MAX,
        ensures
            outcome(r) == verification(proof_parameters@, statement@, self@, old(fs_rng)@),
            final(fs_rng)@ == verified_state(proof_parameters@, statement@, self@, old(fs_rng)@),
    {
        let m = proof_parameters.m;
        let n = proof_parameters.n;
        let ghost state = fs_rng@;
        absorb_label(fs_rng);

        // The first partial product is the first row.
        if statement.commitment_to_a.len() == 0 || self.b_commits.len() == 0 {
            return Err(CryptoError::verification_failure("Hadamard Product (5.1)"));
        }
        if !statement.commitment_to_a[0].equals(&self.b_commits[0]) {
            return Err(CryptoError::verification_failure("Hadamard Product (5.1)"));
        }
        // The last partial product is the claimed product.
        if m == 0 || self.b_commits.len() < m {
            return Err(CryptoError::verification_failure("Hadamard Product (5.1)"));
        }
        if !statement.commitment_to_b.equals(&self.b_commits[m - 1]) {
            return Err(CryptoError::verification_failure("Hadamard Product (5.1)"));
        }
        assert(early_check(proof_parameters@, statement@, self@) is Ok);

        let (x, y) = derive_challenges(proof_parameters, &self.b_commits, fs_rng, Ghost(state));

        // All powers of the first challenge from 0 to m - 1.
        let x_challenge_powers = scalar_powers(x, m - 1);
        // The second challenge defines the bilinear map.
        let prover_mapping = zero_argument::YMapping::new(y, n);

        assert forall|i: int| 0 <= i < x_challenge_powers@.len() implies (
        #[trigger] x_challenge_powers@[i])@ == fpow(x@, i as nat) by {
            assert(scalar_values(x_challenge_powers@)[i] == x_challenge_powers@[i]@);
        }
        let c_d_i = shift_commitments(&self.b_commits, &x_challenge_powers, Ghost(x@));

        let zero_arg_parameters = zero_argument::Parameters::new(
            m,
            n,
            proof_parameters.commit_key,
        );

        let vec_minus_ones = minus_ones_vector(n);
        let minus_ones_commit = match PedersenCommitment::commit(
            proof_parameters.commit_key,
            &vec_minus_ones,
            Scalar::zero(),
        ) {
            Ok(c) => c,
            Err(e) => {
                return Err(e);
            },
        };
        let vec_commits_to_a = later_commitments_of(statement.commitment_to_a, minus_ones_commit);

        let zero_arg_statement = zero_argument::Statement::new(
            &vec_commits_to_a,
            &c_d_i,
            &prover_mapping,
        );
        assert(zero_arg_statement@ == zero_statement(
            proof_parameters@,
            statement@,
            self@.b_commits,
            x@,
            y@,
        ));
        assert(zero_arg_parameters@ == zero_parameters(proof_parameters@));

        match self.zero_arg_proof.verify(&zero_arg_parameters, &zero_arg_statement, fs_rng) {
            Ok(_) => Ok(()),
            Err(_) => Err(CryptoError::verification_failure("Hadamard Product (5.1)")),
        }
    }
}

} // verus!
