//! The argument that a bilinear map vanishes on the rows of two committed matrices.
use crate::error::{CryptoError, ErrorModel};
use crate::field::{fadd, fmul, fpow, matrix_values, scalar_values, Scalar};
use crate::vector_commitment::pedersen::{commitment_values, CommitKey, CommitKeyModel, Commitment};
use crate::zkp::ArgumentOfKnowledge;
use crate::zkp::transcript::Transcript;
use vstd::prelude::*;

pub mod verification;
pub mod completeness;
pub mod prover;

verus! {

/// The bilinear map that weights the product of entry `i` (counted from one) with `y^i`.
#[derive(Clone, Copy, Debug)]
pub struct YMapping {
    pub y: Scalar,
    pub n: usize,
}

/// The challenge and the dimension of a mapping.
pub struct YMappingModel {
    pub y: nat,
    pub n: nat,
}

impl View for YMapping {
    type V = YMappingModel;

    open spec fn view(&self) -> YMappingModel {
        YMappingModel { y: self.y@, n: self.n as nat }
    }
}

/// The sum of the first `n` products `a[i] * b[i] * y^(i+1)`.
pub open spec fn y_weighted(y: nat, a: Seq<nat>, b: Seq<nat>, n: nat) -> nat
    decreases n,
{
    if n == 0 {
        0
    } else {
        fadd(y_weighted(y, a, b, (n - 1) as nat), fmul(fmul(a[n - 1], b[n - 1]), fpow(y, n)))
    }
}

/// The error with which the mapping refuses two vectors, if it refuses them: they must both
/// have the dimension of the mapping.
pub open spec fn mapping_failure(left: nat, right: nat, n: nat) -> Option<ErrorModel> {
    if left != right {
        Some(ErrorModel::BilinearMapLength(left, right))
    } else if left != n {
        Some(ErrorModel::BilinearMapLength(left, n))
    } else {
        None
    }
}

impl YMapping {
    /// The mapping for the challenge `y` on vectors of `n` entries.
    pub fn new(y: Scalar, n: usize) -> (r: YMapping)
        ensures
            r@ == (YMappingModel { y: y@, n: n as nat }),
    {
        YMapping { y, n }
    }

    /// The value of the map on two vectors.
    pub fn compute_mapping(&self, a: &Vec<Scalar>, b: &Vec<Scalar>) -> (r: Result<
        Scalar,
        CryptoError,
    >)
        ensures
            match r {
                Ok(v) => mapping_failure(a@.len(), b@.len(), self@.n) is None && v@ == y_weighted(
                    self@.y,
                    scalar_values(a@),
                    scalar_values(b@),
                    self@.n,
                ),
                Err(e) => mapping_failure(a@.len(), b@.len(), self@.n) == Some(e@),
            },
    {
        if a.len() != b.len() {
            return Err(CryptoError::BilinearMapLengthError(a.len(), b.len()));
        }
        if a.len() != self.n {
            return Err(CryptoError::BilinearMapLengthError(a.len(), self.n));
        }
        let mut acc = Scalar::zero();
        let mut weight = Scalar::one();
        let mut i: usize = 0;
        while i < self.n
            invariant
                i <= self.n,
                a@.len() == self.n,
                b@.len() == self.n,
                weight@ == fpow(self.y@, i as nat),
                acc@ == y_weighted(self.y@, scalar_values(a@), scalar_values(b@), i as nat),
            decreases self.n - i,
        {
            weight = weight.mul(&self.y);
            let product = a[i].mul(&b[i]);
            let term = product.mul(&weight);
            acc = acc.add(&term);
            i = i + 1;
        }
        Ok(acc)
    }
}

/// The public parameters of the argument: the commit key and the dimensions of the matrices.
pub struct Parameters<'a> {
    pub commit_key: &'a CommitKey,
    pub m: usize,
    pub n: usize,
}

/// The mathematical content of the parameters.
pub struct ParametersModel {
    pub commit_key: CommitKeyModel,
    pub m: nat,
    pub n: nat,
}

impl<'a> View for Parameters<'a> {
    type V = ParametersModel;

    open spec fn view(&self) -> ParametersModel {
        ParametersModel { commit_key: self.commit_key@, m: self.m as nat, n: self.n as nat }
    }
}

impl<'a> Parameters<'a> {
    /// The parameters with the given fields.
    pub fn new(m: usize, n: usize, commit_key: &'a CommitKey) -> (r: Parameters<'a>)
        ensures
            r@ == (ParametersModel { commit_key: commit_key@, m: m as nat, n: n as nat }),
    {
        Parameters { commit_key, m, n }
    }
}

/// The statement: commitments to the rows of two matrices, and the bilinear map that is
/// claimed to vanish on them.
pub struct Statement<'a> {
    pub commitment_to_a: &'a Vec<Commitment>,
    pub commitment_to_b: &'a Vec<Commitment>,
    pub bilinear_map: &'a YMapping,
}

/// The mathematical content of a statement.
pub struct StatementModel {
    pub commitment_to_a: Seq<nat>,
    pub commitment_to_b: Seq<nat>,
    pub bilinear_map: YMappingModel,
}

impl<'a> View for Statement<'a> {
    type V = StatementModel;

    open spec fn view(&self) -> StatementModel {
        StatementModel {
            commitment_to_a: commitment_values(self.commitment_to_a@),
            commitment_to_b: commitment_values(self.commitment_to_b@),
            bilinear_map: self.bilinear_map@,
        }
    }
}

impl<'a> Statement<'a> {
    /// The statement with the given fields.
    pub fn new(
        commitment_to_a: &'a Vec<Commitment>,
        commitment_to_b: &'a Vec<Commitment>,
        bilinear_map: &'a YMapping,
    ) -> (r: Statement<'a>)
        ensures
            r@ == (StatementModel {
                commitment_to_a: commitment_values(commitment_to_a@),
                commitment_to_b: commitment_values(commitment_to_b@),
                bilinear_map: bilinear_map@,
            }),
    {
        Statement { commitment_to_a, commitment_to_b, bilinear_map }
    }
}

/// The witness: the two matrices and the randomness of the commitments to their rows.
pub struct Witness<'a> {
    pub matrix_a: &'a Vec<Vec<Scalar>>,
    pub randoms_for_a_commit: &'a Vec<Scalar>,
    pub matrix_b: &'a Vec<Vec<Scalar>>,
    pub randoms_for_b_commit: &'a Vec<Scalar>,
}

/// The mathematical content of a witness.
pub struct WitnessModel {
    pub matrix_a: Seq<Seq<nat>>,
    pub randoms_for_a_commit: Seq<nat>,
    pub matrix_b: Seq<Seq<nat>>,
    pub randoms_for_b_commit: Seq<nat>,
}

impl<'a> View for Witness<'a> {
    type V = WitnessModel;

    open spec fn view(&self) -> WitnessModel {
        WitnessModel {
            matrix_a: matrix_values(self.matrix_a@),
            randoms_for_a_commit: scalar_values(self.randoms_for_a_commit@),
            matrix_b: matrix_values(self.matrix_b@),
            randoms_for_b_commit: scalar_values(self.randoms_for_b_commit@),
        }
    }
}

impl<'a> Witness<'a> {
    /// The witness with the given fields.
    pub fn new(
        matrix_a: &'a Vec<Vec<Scalar>>,
        randoms_for_a_commit: &'a Vec<Scalar>,
        matrix_b: &'a Vec<Vec<Scalar>>,
        randoms_for_b_commit: &'a Vec<Scalar>,
    ) -> (r: Witness<'a>)
        ensures
            r@ == (WitnessModel {
                matrix_a: matrix_values(matrix_a@),
                randoms_for_a_commit: scalar_values(randoms_for_a_commit@),
                matrix_b: matrix_values(matrix_b@),
                randoms_for_b_commit: scalar_values(randoms_for_b_commit@),
            }),
    {
        Witness { matrix_a, randoms_for_a_commit, matrix_b, randoms_for_b_commit }
    }
}

/// The label of the protocol in the errors of its verifier.
pub open spec fn label() -> Seq<char> {
    "Zero Argument (5.2)"@
}

/// The zero-value argument as an argument of knowledge.
pub struct ZeroValueArgument<'a> {
    _marker: core::marker::PhantomData<&'a ()>,
}

impl<'a> ArgumentOfKnowledge for ZeroValueArgument<'a> {
    type CommonReferenceString = Parameters<'a>;

    type Statement = Statement<'a>;

    type Witness = Witness<'a>;

    type Proof = verification::Proof;

    open spec fn admissible(common_reference_string: &Parameters<'a>, statement: &Statement<'a>) -> bool {
        2 * common_reference_string.m + 1 <= usize::MAX
    }

    open spec fn verdict(
        common_reference_string: &Parameters<'a>,
        statement: &Statement<'a>,
        proof: &verification::Proof,
        state: Seq<u8>,
    ) -> Result<(), ErrorModel> {
        verification::verification(common_reference_string@, statement@, proof@, state)
    }

    fn prove(
        rng: &mut rand::rngs::StdRng,
        common_reference_string: &Parameters<'a>,
        statement: &Statement<'a>,
        witness: &Witness<'a>,
        fs_rng: &mut Transcript,
    ) -> (r: Result<verification::Proof, CryptoError>)
        ensures
            exists|rho: prover::RandomnessModel| #[trigger]
                prover::run_with(
                    common_reference_string@,
                    statement@,
                    witness@,
                    rho,
                    old(fs_rng)@,
                    prover::proof_outcome(r),
                    final(fs_rng)@,
                ),
    {
        let prover = prover::Prover::new(common_reference_string, statement, witness);
        prover.prove(rng, fs_rng)
    }

    fn verify(
        common_reference_string: &Parameters<'a>,
        statement: &Statement<'a>,
        proof: &verification::Proof,
        fs_rng: &mut Transcript,
    ) -> (r: Result<(), CryptoError>)
        ensures
            final(fs_rng)@ == verification::verified_state(
                common_reference_string@,
                statement@,
                proof@,
                old(fs_rng)@,
            ),
    {
        proof.verify(common_reference_string, statement, fs_rng)
    }
}

} // verus!
