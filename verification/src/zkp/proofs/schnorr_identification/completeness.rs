//! What the verifier of the identification scheme does with the proofs of the prover.
use super::label;
use super::prover::response;
use super::verification::{accepts, transcript, verification};
use crate::error::rejection;
use crate::field::{
    congruent, fadd, fmul, fsub, lemma_congruent_reduced, lemma_fadd_congruent,
    lemma_fmul_congruent, lemma_fsub_congruent, order,
};
use crate::zkp::transcript::challenge;
use vstd::prelude::*;

verus! {

/// What the left-hand side of the check of the verifier stands for, when the prover used the
/// witness `w` and the random scalar `k` for the statement `x * g`: `k * g` plus
/// `c * (x - w) * g`.
proof fn lemma_check(g: nat, x: nat, w: nat, k: nat, c: nat)
    ensures
        congruent(
            fadd(fmul(fsub(k, fmul(c, w)), g), fmul(c, fmul(x, g))) as int,
            (k as int) * (g as int) + (c as int) * (((x as int) - (w as int)) * (g as int)),
        ),
        fadd(fmul(fsub(k, fmul(c, w)), g), fmul(c, fmul(x, g))) < order(),
{
    let (gi, xi, wi, ki, ci) = (g as int, x as int, w as int, k as int, c as int);
    lemma_fmul_congruent(c, w, ci, wi);
    lemma_fsub_congruent(k, fmul(c, w), ki, ci * wi);
    lemma_fmul_congruent(fsub(k, fmul(c, w)), g, ki - ci * wi, gi);
    lemma_fmul_congruent(x, g, xi, gi);
    lemma_fmul_congruent(c, fmul(x, g), ci, xi * gi);
    lemma_fadd_congruent(
        fmul(fsub(k, fmul(c, w)), g),
        fmul(c, fmul(x, g)),
        (ki - ci * wi) * gi,
        ci * (xi * gi),
    );
    assert((ki - ci * wi) * gi + ci * (xi * gi) == ki * gi + ci * ((xi - wi) * gi))
        by (nonlinear_arith);
}

/// The verifier accepts the proof of a prover that knows the witness: for every base `g`,
/// witness `x`, random scalar `k` and state of the transcript, the proof that the prover gives
/// for the statement `x * g` verifies.
pub proof fn lemma_honest_proof_is_accepted(g: nat, x: nat, k: nat, state: Seq<u8>)
    ensures
        verification(g, fmul(x, g), response(g, fmul(x, g), x, k, state), state) is Ok,
{
    let statement = fmul(x, g);
    let proof = response(g, statement, x, k, state);
    let c = challenge(transcript(g, statement, proof.random_commit, state));
    let (gi, xi, ki, ci) = (g as int, x as int, k as int, c as int);
    lemma_check(g, x, x, k, c);
    lemma_fmul_congruent(k, g, ki, gi);
    assert(ki * gi + ci * ((xi - xi) * gi) == ki * gi) by (nonlinear_arith);
    lemma_congruent_reduced(
        fadd(fmul(proof.opening, g), fmul(c, statement)),
        proof.random_commit,
    );
    assert(accepts(g, statement, proof, c));
}

/// The verifier rejects the proof of a prover that used another witness: when the prover
/// used `w` for the statement `x * g`, the proof is rejected unless `c * (x - w) * g` vanishes
/// for the challenge `c`, which for a base other than the neutral element and a witness other
/// than `x` happens only when the challenge is zero.
pub proof fn lemma_wrong_witness_is_rejected(g: nat, x: nat, w: nat, k: nat, state: Seq<u8>)
    requires
        fmul(
            challenge(transcript(g, fmul(x, g), fmul(k, g), state)),
            fmul(fsub(x, w), g),
        ) != 0,
    ensures
        verification(g, fmul(x, g), response(g, fmul(x, g), w, k, state), state) == rejection(
            label(),
        ),
{
    let statement = fmul(x, g);
    let proof = response(g, statement, w, k, state);
    let c = challenge(transcript(g, statement, proof.random_commit, state));
    let left = fadd(fmul(proof.opening, g), fmul(c, statement));
    let (gi, xi, wi, ki, ci) = (g as int, x as int, w as int, k as int, c as int);
    lemma_check(g, x, w, k, c);
    lemma_fmul_congruent(k, g, ki, gi);
    lemma_fsub_congruent(x, w, xi, wi);
    lemma_fmul_congruent(fsub(x, w), g, xi - wi, gi);
    lemma_fmul_congruent(c, fmul(fsub(x, w), g), ci, (xi - wi) * gi);
    if left == proof.random_commit {
        let q = order() as int;
        let extra = ci * ((xi - wi) * gi);
        assert(congruent(ki * gi + extra, ki * gi));
        vstd::arithmetic::div_mod::lemma_sub_mod_noop(ki * gi + extra, ki * gi, q);
        vstd::arithmetic::div_mod::lemma_small_mod(0, order());
        assert((ki * gi + extra) - ki * gi == extra);
        assert(extra % q == 0);
        vstd::arithmetic::div_mod::lemma_small_mod(fmul(c, fmul(fsub(x, w), g)), order());
        assert(false);
    }
    assert(!accepts(g, statement, proof, c));
}

} // verus!
