//! The proof of the identification scheme, and its verifier.
use super::{label, Parameters, Statement};
use crate::error::{outcome, rejection, CryptoError, ErrorModel};
use crate::field::{fadd, fmul, Scalar};
use crate::group::{point_encoding, Point};
use crate::zkp::transcript::{
    absorbed_state, challenge, label_encoding, squeezed_state, write_label, write_point,
    Transcript,
};
use vstd::prelude::*;

verus! {

/// A proof: the commitment `R` to a random scalar, and the opening `s`.
#[derive(Clone, Copy, Debug, PartialEq, Eq)]
pub struct Proof {
    pub random_commit: Point,
    pub opening: Scalar,
}

/// The mathematical content of a proof.
pub struct ProofModel {
    pub random_commit: nat,
    pub opening: nat,
}

impl View for Proof {
    type V = ProofModel;

    open spec fn view(&self) -> ProofModel {
        ProofModel { random_commit: self.random_commit@, opening: self.opening@ }
    }
}

/// The state of the transcript when the challenge is squeezed: the label, the parameter, the
/// statement and the commitment have been absorbed.
pub open spec fn transcript(g: nat, statement: nat, random_commit: nat, state: Seq<u8>) -> Seq<u8> {
    absorbed_state(
        state,
        label_encoding("schnorr_identity") + point_encoding(g) + point_encoding(statement)
            + point_encoding(random_commit),
    )
}

/// Whether a proof passes the check of the verifier for the challenge `c`:
/// `s * g + c * P == R`.
pub open spec fn accepts(g: nat, statement: nat, proof: ProofModel, c: nat) -> bool {
    fadd(fmul(proof.opening, g), fmul(c, statement)) == proof.random_commit
}

/// What the verifier returns on a proof, for a transcript in the given state.
pub open spec fn verification(g: nat, statement: nat, proof: ProofModel, state: Seq<u8>) -> Result<
    (),
    ErrorModel,
> {
    if accepts(g, statement, proof, challenge(transcript(g, statement, proof.random_commit, state))) {
        Ok(())
    } else {
        rejection(label())
    }
}

/// The state in which the verifier leaves the transcript.
pub open spec fn verified_state(g: nat, statement: nat, proof: ProofModel, state: Seq<u8>) -> Seq<
    u8,
> {
    squeezed_state(transcript(g, statement, proof.random_commit, state))
}

/// Absorbs the label, the parameter, the statement and the commitment, and squeezes the
/// challenge.
pub fn derive_challenge(
    pp: &Parameters,
    statement: &Statement,
    random_commit: &Point,
    fs_rng: &mut Transcript,
) -> (c: Scalar)
    ensures
        c@ == challenge(transcript(pp@, statement@, random_commit@, old(fs_rng)@)),
        final(fs_rng)@ == squeezed_state(
            transcript(pp@, statement@, random_commit@, old(fs_rng)@),
        ),
{
    let mut buf: Vec<u8> = Vec::new();
    write_label(&mut buf, "schnorr_identity");
    write_point(&mut buf, pp);
    write_point(&mut buf, statement);
    write_point(&mut buf, random_commit);
    assert(buf@ =~= label_encoding("schnorr_identity") + point_encoding(pp@) + point_encoding(
        statement@,
    ) + point_encoding(random_commit@));
    fs_rng.absorb(buf.as_slice());
    fs_rng.squeeze_scalar()
}

impl Proof {
    /// Verifies the proof against the statement.
    pub fn verify(&self, pp: &Parameters, statement: &Statement, fs_rng: &mut Transcript) -> (r: Result<
        (),
        CryptoError,
    >)
        ensures
            outcome(r) == verification(pp@, statement@, self@, old(fs_rng)@),
            final(fs_rng)@ == verified_state(pp@, statement@, self@, old(fs_rng)@),
    {
        let c = derive_challenge(pp, statement, &self.random_commit, fs_rng);
        let left = pp.mul(&self.opening).add(&statement.mul(&c));
        if !left.equals(&self.random_commit) {
            return Err(CryptoError::verification_failure("Schnorr Identification"));
        }
        Ok(())
    }
}

} // verus!
