//! The prover of equality of discrete logarithms.
use super::{Parameters, ParametersModel, Statement, Witness};
use super::verification::{absorb_statement, derive_challenge, transcript, Proof, ProofModel};
use crate::error::CryptoError;
use crate::field::{fadd, fmul, order, Scalar};
use crate::zkp::transcript::{challenge, squeezed_state, Transcript};
use vstd::prelude::*;

verus! {

/// The proof that the prover gives for the witness `x` when it drew the random scalar `omega`
/// and the transcript was in the given state: `a = omega * g`, `b = omega * h` and
/// `r = omega + c * x`.
pub open spec fn response(
    params: ParametersModel,
    statement: (nat, nat),
    x: nat,
    omega: nat,
    state: Seq<u8>,
) -> ProofModel {
    let a = fmul(omega, params.g);
    let b = fmul(omega, params.h);
    let c = challenge(transcript(params, statement, a, b, state));
    ProofModel { a, b, r: fadd(omega, fmul(c, x)) }
}

/// The state in which the prover leaves the transcript.
pub open spec fn proved_state(
    params: ParametersModel,
    statement: (nat, nat),
    omega: nat,
    state: Seq<u8>,
) -> Seq<u8> {
    squeezed_state(
        transcript(params, statement, fmul(omega, params.g), fmul(omega, params.h), state),
    )
}

/// Whether a run of the prover that drew the random scalar `omega` returns `result` and
/// leaves the transcript in the state `after`.
pub open spec fn run_with(
    params: ParametersModel,
    statement: (nat, nat),
    x: nat,
    omega: nat,
    state: Seq<u8>,
    result: Result<Proof, CryptoError>,
    after: Seq<u8>,
) -> bool {
    &&& omega < order()
    &&& result matches Ok(proof) && proof@ == response(params, statement, x, omega, state)
    &&& after == proved_state(params, statement, omega, state)
}

/// The prover of equality of discrete logarithms.
pub struct Prover {}

impl Prover {
    /// Proves knowledge of the witness, with the given random scalar.
    pub fn create_proof_with(
        omega: &Scalar,
        parameters: &Parameters,
        statement: &Statement,
        witness: &Witness,
        fs_rng: &mut Transcript,
    ) -> (r: Result<Proof, CryptoError>)
        ensures
            r matches Ok(proof) && proof@ == response(
                parameters@,
                statement@,
                witness@,
                omega@,
                old(fs_rng)@,
            ),
            final(fs_rng)@ == proved_state(parameters@, statement@, omega@, old(fs_rng)@),
    {
        absorb_statement(parameters, statement, fs_rng);
        let a = parameters.g.mul(omega);
        let b = parameters.h.mul(omega);
        let c = derive_challenge(&a, &b, fs_rng);
        let r = omega.add(&c.mul(witness));
        Ok(Proof { a, b, r })
    }

    /// Proves knowledge of the witness, drawing the random scalar from the random number
    /// generator.
    pub fn create_proof(
        rng: &mut rand::rngs::StdRng,
        parameters: &Parameters,
        statement: &Statement,
        witness: &Witness,
        fs_rng: &mut Transcript,
    ) -> (r: Result<Proof, CryptoError>)
        ensures
            exists|omega: nat| #[trigger]
                run_with(parameters@, statement@, witness@, omega, old(fs_rng)@, r, final(fs_rng)@),
    {
        let omega = Scalar::rand(rng);
        let r = Self::create_proof_with(&omega, parameters, statement, witness, fs_rng);
        assert(run_with(parameters@, statement@, witness@, omega@, old(fs_rng)@, r, fs_rng@));
        r
    }
}

} // verus!
