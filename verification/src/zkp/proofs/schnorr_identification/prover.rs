//! The prover of the identification scheme.
use super::{Parameters, Statement, Witness};
use super::verification::{derive_challenge, transcript, Proof, ProofModel};
use crate::error::CryptoError;
use crate::field::{fmul, fsub, order, Scalar};
use crate::zkp::transcript::{challenge, squeezed_state, Transcript};
use vstd::prelude::*;

verus! {

/// The proof that the prover gives for the witness `x` when it drew the random scalar `k` and
/// the transcript was in the given state: `R = k * g` and `s = k - c * x`.
pub open spec fn response(g: nat, statement: nat, x: nat, k: nat, state: Seq<u8>) -> ProofModel {
    let random_commit = fmul(k, g);
    let c = challenge(transcript(g, statement, random_commit, state));
    ProofModel { random_commit, opening: fsub(k, fmul(c, x)) }
}

/// Whether a run of the prover that drew the random scalar `k` returns `result` and leaves
/// the transcript in the state `after`.
pub open spec fn run_with(
    g: nat,
    statement: nat,
    x: nat,
    k: nat,
    state: Seq<u8>,
    result: Result<Proof, CryptoError>,
    after: Seq<u8>,
) -> bool {
    &&& k < order()
    &&& result matches Ok(proof) && proof@ == response(g, statement, x, k, state)
    &&& after == squeezed_state(transcript(g, statement, fmul(k, g), state))
}

/// The prover of the identification scheme.
pub struct Prover {}

impl Prover {
    /// Proves knowledge of the witness, with the given random scalar.
    pub fn create_proof_with(
        random: &Scalar,
        pp: &Parameters,
        statement: &Statement,
        witness: &Witness,
        fs_rng: &mut Transcript,
    ) -> (r: Result<Proof, CryptoError>)
        ensures
            r matches Ok(proof) && proof@ == response(
                pp@,
                statement@,
                witness@,
                random@,
                old(fs_rng)@,
            ),
            final(fs_rng)@ == squeezed_state(
                transcript(pp@, statement@, fmul(random@, pp@), old(fs_rng)@),
            ),
    {
        let random_commit = pp.mul(random);
        let c = derive_challenge(pp, statement, &random_commit, fs_rng);
        let opening = random.sub(&c.mul(witness));
        Ok(Proof { random_commit, opening })
    }

    /// Proves knowledge of the witness, drawing the random scalar from the random number
    /// generator.
    pub fn create_proof(
        rng: &mut rand::rngs::StdRng,
        pp: &Parameters,
        statement: &Statement,
        witness: &Witness,
        fs_rng: &mut Transcript,
    ) -> (r: Result<Proof, CryptoError>)
        ensures
            exists|k: nat| #[trigger]
                run_with(pp@, statement@, witness@, k, old(fs_rng)@, r, final(fs_rng)@),
    {
        let random = Scalar::rand(rng);
        let r = Self::create_proof_with(&random, pp, statement, witness, fs_rng);
        assert(run_with(pp@, statement@, witness@, random@, old(fs_rng)@, r, fs_rng@));
        r
    }
}

} // verus!
