//! The proof of equality of discrete logarithms, and its verifier.
use super::{label, Parameters, ParametersModel, Statement};
use crate::error::{outcome, rejection, CryptoError, ErrorModel};
use crate::field::{fadd, fmul, Scalar};
use crate::group::{point_encoding, Point};
use crate::zkp::transcript::{
    absorbed_state, challenge, label_encoding, squeezed_state, write_label, write_point,
    Transcript,
};
use vstd::prelude::*;

verus! {

/// A proof: the commitments `a` and `b` to a random scalar under the two bases, and the
/// response `r`.
#[derive(Clone, Copy, Debug, PartialEq, Eq)]
pub struct Proof {
    pub a: Point,
    pub b: Point,
    pub r: Scalar,
}

/// The mathematical content of a proof.
pub struct ProofModel {
    pub a: nat,
    pub b: nat,
    pub r: nat,
}

impl View for Proof {
    type V = ProofModel;

    open spec fn view(&self) -> ProofModel {
        ProofModel { a: self.a@, b: self.b@, r: self.r@ }
    }
}

/// The state of the transcript after the label, the parameters and the statement were
/// absorbed.
pub open spec fn stated(params: ParametersModel, statement: (nat, nat), state: Seq<u8>) -> Seq<u8> {
    absorbed_state(
        state,
        label_encoding("chaum_pedersen") + point_encoding(params.g) + point_encoding(params.h)
            + point_encoding(statement.0) + point_encoding(statement.1),
    )
}

/// The state of the transcript when the challenge is squeezed: the two commitments have been
/// absorbed as well.
pub open spec fn transcript(
    params: ParametersModel,
    statement: (nat, nat),
    a: nat,
    b: nat,
    state: Seq<u8>,
) -> Seq<u8> {
    absorbed_state(stated(params, statement, state), point_encoding(a) + point_encoding(b))
}

/// Whether a proof passes the checks of the verifier for the challenge `c`:
/// `r * g == a + c * A` and `r * h == b + c * B`.
pub open spec fn accepts(params: ParametersModel, statement: (nat, nat), proof: ProofModel, c: nat) -> bool {
    &&& fmul(proof.r, params.g) == fadd(proof.a, fmul(c, statement.0))
    &&& fmul(proof.r, params.h) == fadd(proof.b, fmul(c, statement.1))
}

/// What the verifier returns on a proof, for a transcript in the given state.
pub open spec fn verification(
    params: ParametersModel,
    statement: (nat, nat),
    proof: ProofModel,
    state: Seq<u8>,
) -> Result<(), ErrorModel> {
    if accepts(
        params,
        statement,
        proof,
        challenge(transcript(params, statement, proof.a, proof.b, state)),
    ) {
        Ok(())
    } else {
        rejection(label())
    }
}

/// The state in which the verifier leaves the transcript.
pub open spec fn verified_state(
    params: ParametersModel,
    statement: (nat, nat),
    proof: ProofModel,
    state: Seq<u8>,
) -> Seq<u8> {
    squeezed_state(transcript(params, statement, proof.a, proof.b, state))
}

/// Absorbs the label, the parameters and the statement.
pub fn absorb_statement(parameters: &Parameters, statement: &Statement, fs_rng: &mut Transcript)
    ensures
        final(fs_rng)@ == stated(parameters@, statement@, old(fs_rng)@),
{
    let mut buf: Vec<u8> = Vec::new();
    write_label(&mut buf, "chaum_pedersen");
    write_point(&mut buf, parameters.g);
    write_point(&mut buf, parameters.h);
    write_point(&mut buf, statement.0);
    write_point(&mut buf, statement.1);
    assert(buf@ =~= label_encoding("chaum_pedersen") + point_encoding(parameters@.g)
        + point_encoding(parameters@.h) + point_encoding(statement@.0) + point_encoding(
        statement@.1,
    ));
    fs_rng.absorb(buf.as_slice());
}

/// Absorbs the two commitments and squeezes the challenge.
pub fn derive_challenge(a: &Point, b: &Point, fs_rng: &mut Transcript) -> (c: Scalar)
    ensures
        c@ == challenge(absorbed_state(old(fs_rng)@, point_encoding(a@) + point_encoding(b@))),
        final(fs_rng)@ == squeezed_state(
            absorbed_state(old(fs_rng)@, point_encoding(a@) + point_encoding(b@)),
        ),
{
    let mut buf: Vec<u8> = Vec::new();
    write_point(&mut buf, a);
    write_point(&mut buf, b);
    assert(buf@ =~= point_encoding(a@) + point_encoding(b@));
    fs_rng.absorb(buf.as_slice());
    fs_rng.squeeze_scalar()
}

impl Proof {
    /// Verifies the proof against the statement.
    pub fn verify(&self, parameters: &Parameters, statement: &Statement, fs_rng: &mut Transcript) -> (r: Result<
        (),
        CryptoError,
    >)
        ensures
            outcome(r) == verification(parameters@, statement@, self@, old(fs_rng)@),
            final(fs_rng)@ == verified_state(parameters@, statement@, self@, old(fs_rng)@),
    {
        absorb_statement(parameters, statement, fs_rng);
        let c = derive_challenge(&self.a, &self.b, fs_rng);

        // g * r ==? a + A * c
        if !parameters.g.mul(&self.r).equals(&self.a.add(&statement.0.mul(&c))) {
            return Err(CryptoError::verification_failure("Chaum-Pedersen"));
        }
        // h * r ==? b + B * c
        if !parameters.h.mul(&self.r).equals(&self.b.add(&statement.1.mul(&c))) {
            return Err(CryptoError::verification_failure("Chaum-Pedersen"));
        }
        Ok(())
    }
}

} // verus!
