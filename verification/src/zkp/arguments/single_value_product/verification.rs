//! The proof of the single-value-product argument, and its verifier.
use super::{label, Parameters, ParametersModel, Statement, StatementModel};
use crate::error::{outcome, rejection, CryptoError, ErrorModel};
use crate::field::{fadd, fmul, fsub, scalar_values, Scalar};
use crate::group::point_encoding;
use crate::vector_commitment::pedersen::{
    commit_key_encoding, commitment, Commitment, PedersenCommitment,
};
use crate::zkp::transcript::{
    absorbed_state, challenge, label_encoding, squeezed_state, write_label, Transcript,
};
use vstd::prelude::*;

verus! {

/// A proof of the single-value-product argument.
#[derive(Clone, Debug)]
pub struct Proof {
    // Round 1
    pub d_commit: Commitment,
    pub delta_commit: Commitment,
    pub diff_commit: Commitment,
    // Round 2
    pub a_blinded: Vec<Scalar>,
    pub b_blinded: Vec<Scalar>,
    pub r_blinded: Scalar,
    pub s_blinded: Scalar,
}

/// The mathematical content of a proof.
pub struct ProofModel {
    pub d_commit: nat,
    pub delta_commit: nat,
    pub diff_commit: nat,
    pub a_blinded: Seq<nat>,
    pub b_blinded: Seq<nat>,
    pub r_blinded: nat,
    pub s_blinded: nat,
}

impl View for Proof {
    type V = ProofModel;

    open spec fn view(&self) -> ProofModel {
        ProofModel {
            d_commit: self.d_commit@,
            delta_commit: self.delta_commit@,
            diff_commit: self.diff_commit@,
            a_blinded: scalar_values(self.a_blinded@),
            b_blinded: scalar_values(self.b_blinded@),
            r_blinded: self.r_blinded@,
            s_blinded: self.s_blinded@,
        }
    }
}

/// The checks that the verifier makes before it touches the transcript: both blinded vectors
/// have `n` entries, `n` is not zero, and their first entries agree.
pub open spec fn early_check(params: ParametersModel, proof: ProofModel) -> Result<
    (),
    ErrorModel,
> {
    if proof.b_blinded.len() != params.n || proof.a_blinded.len() != params.n || params.n == 0
        || proof.b_blinded[0] != proof.a_blinded[0] {
        rejection(label())
    } else {
        Ok(())
    }
}

/// The state of the transcript when the challenge is squeezed: the label, the public
/// information and the first message have been absorbed.
pub open spec fn transcript(
    params: ParametersModel,
    statement: StatementModel,
    d_commit: nat,
    delta_commit: nat,
    diff_commit: nat,
    state: Seq<u8>,
) -> Seq<u8> {
    let s1 = absorbed_state(state, label_encoding("single_value_product_argument"));
    let s2 = absorbed_state(
        s1,
        commit_key_encoding(params.commit_key) + point_encoding(statement.a_commit),
    );
    absorbed_state(
        s2,
        point_encoding(d_commit) + point_encoding(delta_commit) + point_encoding(diff_commit),
    )
}

/// The vector `(x * b[i+1] - b[i] * a[i+1])` over the indices `i` that have a successor.
pub open spec fn blinded_differences(a: Seq<nat>, b: Seq<nat>, x: nat) -> Seq<nat> {
    Seq::new((b.len() - 1) as nat, |i: int| fsub(fmul(x, b[i + 1]), fmul(b[i], a[i + 1])))
}

/// The checks that the verifier makes with the challenge `x`, in their order.
pub open spec fn late_check(
    params: ParametersModel,
    statement: StatementModel,
    proof: ProofModel,
    x: nat,
) -> Result<(), ErrorModel> {
    let ck = params.commit_key;
    if proof.b_blinded[params.n - 1] != fmul(x, statement.b) {
        rejection(label())
    } else if params.n > ck.g.len() {
        Err(ErrorModel::CommitmentLength("Pedersen"@, params.n, ck.g.len()))
    } else if fadd(fmul(x, statement.a_commit), proof.d_commit) != commitment(
        ck,
        proof.a_blinded,
        proof.r_blinded,
    ) {
        rejection(label())
    } else if fadd(fmul(x, proof.diff_commit), proof.delta_commit) != commitment(
        ck,
        blinded_differences(proof.a_blinded, proof.b_blinded, x),
        proof.s_blinded,
    ) {
        rejection(label())
    } else {
        Ok(())
    }
}

/// What the verifier returns on a proof, for a transcript in the given state.
pub open spec fn verification(
    params: ParametersModel,
    statement: StatementModel,
    proof: ProofModel,
    state: Seq<u8>,
) -> Result<(), ErrorModel> {
    if early_check(params, proof) is Err {
        early_check(params, proof)
    } else {
        late_check(
            params,
            statement,
            proof,
            challenge(
                transcript(
                    params,
                    statement,
                    proof.d_commit,
                    proof.delta_commit,
                    proof.diff_commit,
                    state,
                ),
            ),
        )
    }
}

/// The state in which the verifier leaves the transcript.
pub open spec fn verified_state(
    params: ParametersModel,
    statement: StatementModel,
    proof: ProofModel,
    state: Seq<u8>,
) -> Seq<u8> {
    if early_check(params, proof) is Err {
        state
    } else {
        squeezed_state(
            transcript(
                params,
                statement,
                proof.d_commit,
                proof.delta_commit,
                proof.diff_commit,
                state,
            ),
        )
    }
}

/// Absorbs the label, the public information and the first message, and squeezes the
/// challenge.
pub fn derive_challenge(
    proof_parameters: &Parameters,
    statement: &Statement,
    d_commit: &Commitment,
    delta_commit: &Commitment,
    diff_commit: &Commitment,
    fs_rng: &mut Transcript,
) -> (x: Scalar)
    ensures
        x@ == challenge(
            transcript(
                proof_parameters@,
                statement@,
                d_commit@,
                delta_commit@,
                diff_commit@,
                old(fs_rng)@,
            ),
        ),
        final(fs_rng)@ == squeezed_state(
            transcript(
                proof_parameters@,
                statement@,
                d_commit@,
                delta_commit@,
                diff_commit@,
                old(fs_rng)@,
            ),
        ),
{
    let mut buf: Vec<u8> = Vec::new();
    write_label(&mut buf, "single_value_product_argument");
    assert(buf@ =~= label_encoding("single_value_product_argument"));
    fs_rng.absorb(buf.as_slice());

    let mut buf: Vec<u8> = Vec::new();
    proof_parameters.commit_key.write(&mut buf);
    statement.a_commit.write(&mut buf);
    assert(buf@ =~= commit_key_encoding(proof_parameters@.commit_key) + point_encoding(
        statement@.a_commit,
    ));
    fs_rng.absorb(buf.as_slice());

    let mut buf: Vec<u8> = Vec::new();
    d_commit.write(&mut buf);
    delta_commit.write(&mut buf);
    diff_commit.write(&mut buf);
    assert(buf@ =~= point_encoding(d_commit@) + point_encoding(delta_commit@) + point_encoding(
        diff_commit@,
    ));
    fs_rng.absorb(buf.as_slice());

    fs_rng.squeeze_scalar()
}

impl Proof {
    /// Verifies the proof against the statement.
    pub fn verify(
        &self,
        proof_parameters: &Parameters,
        statement: &Statement,
        fs_rng: &mut Transcript,
    ) -> (r: Result<(), CryptoError>)
        ensures
            outcome(r) == verification(proof_parameters@, statement@, self@, old(fs_rng)@),
            final(fs_rng)@ == verified_state(proof_parameters@, statement@, self@, old(fs_rng)@),
    {
        let n = proof_parameters.n;
        if self.b_blinded.len() != n {
            return Err(CryptoError::verification_failure("Single Value Product Argument (5.3)"));
        }
        if self.a_blinded.len() != n {
            return Err(CryptoError::verification_failure("Single Value Product Argument (5.3)"));
        }
        if n == 0 {
            return Err(CryptoError::verification_failure("Single Value Product Argument (5.3)"));
        }
        if !self.b_blinded[0].equals(&self.a_blinded[0]) {
            return Err(CryptoError::verification_failure("Single Value Product Argument (5.3)"));
        }
        assert(early_check(proof_parameters@, self@) is Ok);

        let x = derive_challenge(
            proof_parameters,
            statement,
            &self.d_commit,
            &self.delta_commit,
            &self.diff_commit,
            fs_rng,
        );

        let claimed = x.mul(&statement.b);
        if !self.b_blinded[n - 1].equals(&claimed) {
            return Err(CryptoError::verification_failure("Single Value Product Argument (5.3)"));
        }

        // The blinded a is correctly formed.
        let left = statement.a_commit.mul(&x).add(&self.d_commit);
        let right = match PedersenCommitment::commit(
            proof_parameters.commit_key,
            &self.a_blinded,
            self.r_blinded,
        ) {
            Ok(c) => c,
            Err(e) => {
                return Err(e);
            },
        };
        if !left.equals(&right) {
            return Err(CryptoError::verification_failure("Single Value Product Argument (5.3)"));
        }

        // The differences are correctly formed.
        let left = self.diff_commit.mul(&x).add(&self.delta_commit);
        let mut blinded_diffs: Vec<Scalar> = Vec::new();
        let mut i: usize = 0;
        while i < n - 1
            invariant
                i <= n - 1,
                n >= 1,
                self.a_blinded@.len() == n,
                self.b_blinded@.len() == n,
                blinded_diffs@.len() == i,
                forall|k: int|
                    0 <= k < i ==> (#[trigger] blinded_diffs@[k])@ == fsub(
                        fmul(x@, self.b_blinded@[k + 1]@),
                        fmul(self.b_blinded@[k]@, self.a_blinded@[k + 1]@),
                    ),
            decreases n - 1 - i,
        {
            let forward = x.mul(&self.b_blinded[i + 1]);
            let cross = self.b_blinded[i].mul(&self.a_blinded[i + 1]);
            blinded_diffs.push(forward.sub(&cross));
            i = i + 1;
        }
        assert(scalar_values(blinded_diffs@) =~= blinded_differences(
            self@.a_blinded,
            self@.b_blinded,
            x@,
        ));
        let right = match PedersenCommitment::commit(
            proof_parameters.commit_key,
            &blinded_diffs,
            self.s_blinded,
        ) {
            Ok(c) => c,
            Err(e) => {
                assert(false);
                return Err(e);
            },
        };
        if !left.equals(&right) {
            return Err(CryptoError::verification_failure("Single Value Product Argument (5.3)"));
        }

        Ok(())
    }
}

} // verus!
