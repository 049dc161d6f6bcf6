//! The Chaum-Pedersen proof that two points have the same discrete logarithm with respect to
//! two bases.
use crate::error::{CryptoError, ErrorModel};
use crate::field::Scalar;
use crate::group::Point;
use crate::zkp::ArgumentOfKnowledge;
use crate::zkp::transcript::Transcript;
use vstd::prelude::*;

pub mod completeness;
pub mod prover;
pub mod verification;

verus! {

/// The proof system: the statement `A = x * g` and `B = x * h`, witnessed by the scalar `x`.
pub struct DLEquality<'a> {
    _group: core::marker::PhantomData<&'a Point>,
}

/// The public parameters: the two bases.
#[derive(Clone, Copy)]
pub struct Parameters<'a> {
    pub g: &'a Point,
    pub h: &'a Point,
}

/// The mathematical content of the parameters.
pub struct ParametersModel {
    pub g: nat,
    pub h: nat,
}

impl<'a> View for Parameters<'a> {
    type V = ParametersModel;

    open spec fn view(&self) -> ParametersModel {
        ParametersModel { g: self.g@, h: self.h@ }
    }
}

impl<'a> Parameters<'a> {
    /// The parameters with the given fields.
    pub fn new(g: &'a Point, h: &'a Point) -> (r: Parameters<'a>)
        ensures
            r@ == (ParametersModel { g: g@, h: h@ }),
    {
        Parameters { g, h }
    }
}

/// The statement: two points `A` and `B` such that, for some secret `x` and the parameters
/// `g` and `h`, `A = x * g` and `B = x * h`.
#[derive(Clone, Copy)]
pub struct Statement<'a>(pub &'a Point, pub &'a Point);

impl<'a> View for Statement<'a> {
    type V = (nat, nat);

    open spec fn view(&self) -> (nat, nat) {
        (self.0@, self.1@)
    }
}

impl<'a> Statement<'a> {
    /// The statement with the given fields.
    pub fn new(point_a: &'a Point, point_b: &'a Point) -> (r: Statement<'a>)
        ensures
            r@ == (point_a@, point_b@),
    {
        Statement(point_a, point_b)
    }
}

/// The witness: the scalar `x`.
pub type Witness = Scalar;

/// The label of the protocol in the errors of its verifier.
pub open spec fn label() -> Seq<char> {
    "Chaum-Pedersen"@
}

impl<'a> ArgumentOfKnowledge for DLEquality<'a> {
    type CommonReferenceString = Parameters<'a>;

    type Statement = Statement<'a>;

    type Witness = Witness;

    type Proof = verification::Proof;

    open spec fn admissible(common_reference_string: &Parameters<'a>, statement: &Statement<'a>) -> bool {
        true
    }

    open spec fn verdict(
        common_reference_string: &Parameters<'a>,
        statement: &Statement<'a>,
        proof: &verification::Proof,
        state: Seq<u8>,
    ) -> Result<(), ErrorModel> {
        verification::verification(common_reference_string@, statement@, proof@, state)
    }

    fn prove(
        rng: &mut rand::rngs::StdRng,
        common_reference_string: &Parameters<'a>,
        statement: &Statement<'a>,
        witness: &Witness,
        fs_rng: &mut Transcript,
    ) -> (r: Result<verification::Proof, CryptoError>)
        ensures
            exists|omega: nat| #[trigger]
                prover::run_with(
                    common_reference_string@,
                    statement@,
                    witness@,
                    omega,
                    old(fs_rng)@,
                    r,
                    final(fs_rng)@,
                ),
    {
        prover::Prover::create_proof(rng, common_reference_string, statement, witness, fs_rng)
    }

    fn verify(
        common_reference_string: &Parameters<'a>,
        statement: &Statement<'a>,
        proof: &verification::Proof,
        fs_rng: &mut Transcript,
    ) -> (r: Result<(), CryptoError>)
        ensures
            final(fs_rng)@ == verification::verified_state(
                common_reference_string@,
                statement@,
                proof@,
                old(fs_rng)@,
            ),
    {
        proof.verify(common_reference_string, statement, fs_rng)
    }
}

} // verus!
