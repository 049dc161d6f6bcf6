//! What the verifier of equality of discrete logarithms does with the proofs of the prover.
use super::{label, ParametersModel};
use super::prover::response;
use super::verification::{accepts, transcript, verification};
use crate::error::rejection;
use crate::field::{
    congruent, fadd, fmul, fsub, lemma_congruent_reduced, lemma_fadd_congruent,
    lemma_fmul_congruent, lemma_fsub_congruent, lemma_not_congruent, order,
};
use crate::zkp::transcript::challenge;
use vstd::prelude::*;

verus! {

/// What the two sides of a check of the verifier stand for, for the base `g`, the point `p` of
/// the statement, a prover that used the witness `w` and the random scalar `omega`, and the
/// challenge `c`.
proof fn lemma_check(g: nat, p: nat, w: nat, omega: nat, c: nat)
    ensures
        congruent(
            fmul(fadd(omega, fmul(c, w)), g) as int,
            ((omega as int) + (c as int) * (w as int)) * (g as int),
        ),
        congruent(
            fadd(fmul(omega, g), fmul(c, p)) as int,
            (omega as int) * (g as int) + (c as int) * (p as int),
        ),
        fmul(fadd(omega, fmul(c, w)), g) < order(),
        fadd(fmul(omega, g), fmul(c, p)) < order(),
{
    let (gi, pi, wi, oi, ci) = (g as int, p as int, w as int, omega as int, c as int);
    lemma_fmul_congruent(c, w, ci, wi);
    lemma_fadd_congruent(omega, fmul(c, w), oi, ci * wi);
    lemma_fmul_congruent(fadd(omega, fmul(c, w)), g, oi + ci * wi, gi);
    lemma_fmul_congruent(omega, g, oi, gi);
    lemma_fmul_congruent(c, p, ci, pi);
    lemma_fadd_congruent(fmul(omega, g), fmul(c, p), oi * gi, ci * pi);
}

/// A check of the verifier passes when the point of the statement is the base multiplied by
/// the witness that the prover used.
proof fn lemma_check_passes(g: nat, x: nat, omega: nat, c: nat)
    ensures
        fmul(fadd(omega, fmul(c, x)), g) == fadd(fmul(omega, g), fmul(c, fmul(x, g))),
{
    let (gi, xi, oi, ci) = (g as int, x as int, omega as int, c as int);
    lemma_check(g, fmul(x, g), x, omega, c);
    lemma_fmul_congruent(x, g, xi, gi);
    lemma_fmul_congruent(c, fmul(x, g), ci, xi * gi);
    lemma_fmul_congruent(omega, g, oi, gi);
    lemma_fadd_congruent(fmul(omega, g), fmul(c, fmul(x, g)), oi * gi, ci * (xi * gi));
    assert((oi + ci * xi) * gi == oi * gi + ci * (xi * gi)) by (nonlinear_arith);
    lemma_congruent_reduced(
        fmul(fadd(omega, fmul(c, x)), g),
        fadd(fmul(omega, g), fmul(c, fmul(x, g))),
    );
}

/// A check of the verifier fails when `c * (w * g - p)` does not vanish, where `w` is the
/// witness that the prover used and `p` the point of the statement.
proof fn lemma_check_fails(g: nat, p: nat, w: nat, omega: nat, c: nat)
    requires
        fmul(c, fsub(fmul(w, g), p)) != 0,
    ensures
        fmul(fadd(omega, fmul(c, w)), g) != fadd(fmul(omega, g), fmul(c, p)),
{
    let (gi, pi, wi, oi, ci) = (g as int, p as int, w as int, omega as int, c as int);
    lemma_check(g, p, w, omega, c);
    lemma_fmul_congruent(w, g, wi, gi);
    lemma_fsub_congruent(fmul(w, g), p, wi * gi, pi);
    lemma_fmul_congruent(c, fsub(fmul(w, g), p), ci, wi * gi - pi);
    assert(ci * (wi * gi - pi) == (oi + ci * wi) * gi - (oi * gi + ci * pi)) by (nonlinear_arith);
    lemma_not_congruent(
        (oi + ci * wi) * gi,
        oi * gi + ci * pi,
        fmul(c, fsub(fmul(w, g), p)),
    );
}

/// The verifier accepts the proof of a prover that knows the witness: for all bases, every
/// witness `x`, random scalar `omega` and state of the transcript, the proof that the prover
/// gives for the statement `(x * g, x * h)` verifies.
pub proof fn lemma_honest_proof_is_accepted(params: ParametersModel, x: nat, omega: nat, state: Seq<u8>)
    ensures
        verification(
            params,
            (fmul(x, params.g), fmul(x, params.h)),
            response(params, (fmul(x, params.g), fmul(x, params.h)), x, omega, state),
            state,
        ) is Ok,
{
    let statement = (fmul(x, params.g), fmul(x, params.h));
    let proof = response(params, statement, x, omega, state);
    let c = challenge(transcript(params, statement, proof.a, proof.b, state));
    lemma_check_passes(params.g, x, omega, c);
    lemma_check_passes(params.h, x, omega, c);
    assert(accepts(params, statement, proof, c));
}

/// The verifier rejects the proof of a prover that used a wrong witness, or proved a wrong
/// statement: when the prover used the witness `w` for the statement `(A, B)`, the proof is
/// rejected if `c * (w * g - A)` or `c * (w * h - B)` does not vanish for the challenge `c`.
/// For a statement `(x * g, x * h)` and a witness other than `x`, and for a witness `x` and a
/// second point other than `x * h`, they vanish only when the challenge is zero or a base
/// is the neutral element.
pub proof fn lemma_wrong_proof_is_rejected(
    params: ParametersModel,
    statement: (nat, nat),
    w: nat,
    omega: nat,
    state: Seq<u8>,
)
    requires
        ({
            let c = challenge(
                transcript(params, statement, fmul(omega, params.g), fmul(omega, params.h), state),
            );
            fmul(c, fsub(fmul(w, params.g), statement.0)) != 0 || fmul(
                c,
                fsub(fmul(w, params.h), statement.1),
            ) != 0
        }),
    ensures
        verification(params, statement, response(params, statement, w, omega, state), state)
            == rejection(label()),
{
    let proof = response(params, statement, w, omega, state);
    let c = challenge(transcript(params, statement, proof.a, proof.b, state));
    if fmul(c, fsub(fmul(w, params.g), statement.0)) != 0 {
        lemma_check_fails(params.g, statement.0, w, omega, c);
    } else {
        lemma_check_fails(params.h, statement.1, w, omega, c);
    }
    assert(!accepts(params, statement, proof, c));
}

} // verus!
