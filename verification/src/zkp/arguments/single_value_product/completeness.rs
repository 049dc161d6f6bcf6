//! What the verifier of the single-value-product argument does with the proofs of the
//! prover.
use super::{label, ParametersModel, StatementModel, WitnessModel};
use super::prover::{
    blinded, delta_products, deltas, differences, proved_state, proving, proving_transcript,
    response, running_product, running_products, valid_dimensions, RandomnessModel,
};
use super::verification::{
    blinded_differences, early_check, late_check, transcript, verification, verified_state,
    ProofModel,
};
use crate::error::{rejection, ErrorModel};
use crate::field::{
    congruent, fadd, fmul, fneg, fsub, lemma_congruent_combination, lemma_fadd_congruent,
    lemma_fadd_zero, lemma_fmul_congruent, lemma_fneg_congruent, lemma_fsub_congruent,
    lemma_not_congruent,
};
use crate::vector_commitment::pedersen::{
    commitment, lemma_commitments_combine, lemma_commitments_differ,
};
use crate::zkp::transcript::challenge;
use vstd::prelude::*;

verus! {

/// The identity behind the check of the differences, for one index: with the next entry `a`
/// of the vector, the running products `b` before and `b * a` after it, the blinders `d` of
/// the entry and `e`, `f` of the two running products, the blinded difference
/// `x * (x * b * a + f) - (x * b + e) * (x * a + d)` stands for
/// `x * (f - a * e - b * d) - e * d`.
proof fn lemma_difference(x: nat, a: nat, b: nat, d: nat, e: nat, f: nat)
    ensures
        congruent(
            fsub(
                fmul(x, fadd(fmul(x, fmul(b, a)), f)),
                fmul(fadd(fmul(x, b), e), fadd(fmul(x, a), d)),
            ) as int,
            (x as int) * (fsub(fsub(f, fmul(a, e)), fmul(b, d)) as int) + (fneg(fmul(e, d)) as int),
        ),
{
    let (xi, ai, bi, di, ei, fi) = (x as int, a as int, b as int, d as int, e as int, f as int);
    // The blinded difference.
    lemma_fmul_congruent(b, a, bi, ai);
    lemma_fmul_congruent(x, fmul(b, a), xi, bi * ai);
    lemma_fadd_congruent(fmul(x, fmul(b, a)), f, xi * (bi * ai), fi);
    lemma_fmul_congruent(x, fadd(fmul(x, fmul(b, a)), f), xi, xi * (bi * ai) + fi);
    lemma_fmul_congruent(x, b, xi, bi);
    lemma_fadd_congruent(fmul(x, b), e, xi * bi, ei);
    lemma_fmul_congruent(x, a, xi, ai);
    lemma_fadd_congruent(fmul(x, a), d, xi * ai, di);
    lemma_fmul_congruent(
        fadd(fmul(x, b), e),
        fadd(fmul(x, a), d),
        xi * bi + ei,
        xi * ai + di,
    );
    lemma_fsub_congruent(
        fmul(x, fadd(fmul(x, fmul(b, a)), f)),
        fmul(fadd(fmul(x, b), e), fadd(fmul(x, a), d)),
        xi * (xi * (bi * ai) + fi),
        (xi * bi + ei) * (xi * ai + di),
    );
    // The committed difference and product of blinders.
    lemma_fmul_congruent(a, e, ai, ei);
    lemma_fsub_congruent(f, fmul(a, e), fi, ai * ei);
    lemma_fmul_congruent(b, d, bi, di);
    lemma_fsub_congruent(fsub(f, fmul(a, e)), fmul(b, d), fi - ai * ei, bi * di);
    lemma_fmul_congruent(e, d, ei, di);
    lemma_fneg_congruent(fmul(e, d), ei * di);
    lemma_congruent_combination(
        xi,
        fsub(fsub(f, fmul(a, e)), fmul(b, d)) as int,
        fneg(fmul(e, d)) as int,
        xi,
        fi - ai * ei - bi * di,
        -(ei * di),
    );
    let square = xi * (xi * (bi * ai));
    assert(xi * (xi * (bi * ai) + fi) == square + xi * fi) by (nonlinear_arith)
        requires
            square == xi * (xi * (bi * ai)),
    ;
    assert((xi * bi + ei) * (xi * ai + di) == (xi * bi) * (xi * ai) + (xi * bi) * di + ei * (xi
        * ai) + ei * di) by (nonlinear_arith);
    assert((xi * bi) * (xi * ai) == square) by (nonlinear_arith)
        requires
            square == xi * (xi * (bi * ai)),
    ;
    assert((xi * bi) * di == xi * (bi * di)) by (nonlinear_arith);
    assert(ei * (xi * ai) == xi * (ai * ei)) by (nonlinear_arith);
    assert(xi * (fi - ai * ei - bi * di) == xi * fi - xi * (ai * ei) - xi * (bi * di))
        by (nonlinear_arith);
    assert(xi * (xi * (bi * ai) + fi) - (xi * bi + ei) * (xi * ai + di) == xi * (fi - ai * ei - bi
        * di) + (-(ei * di)));
}

/// The blinded differences of an honest proof stand for the challenge times the committed
/// differences plus the committed products of blinders.
proof fn lemma_differences(witness: WitnessModel, rho: RandomnessModel, x: nat)
    requires
        witness.a.len() >= 2,
        rho.d.len() == witness.a.len(),
        rho.delta.len() == witness.a.len() - 2,
    ensures
        ({
            let a_blinded = blinded(witness.a, rho.d, x);
            let b_blinded = blinded(running_products(witness.a), deltas(rho), x);
            let w = blinded_differences(a_blinded, b_blinded, x);
            &&& w.len() == witness.a.len() - 1
            &&& differences(witness, rho).len() == w.len()
            &&& delta_products(rho).len() == w.len()
            &&& forall|i: int|
                0 <= i < w.len() ==> congruent(
                    #[trigger] w[i] as int,
                    (x as int) * (differences(witness, rho)[i] as int) + (delta_products(rho)[i]
                        as int),
                )
        }),
{
    let a_blinded = blinded(witness.a, rho.d, x);
    let b_blinded = blinded(running_products(witness.a), deltas(rho), x);
    let w = blinded_differences(a_blinded, b_blinded, x);
    assert forall|i: int| 0 <= i < w.len() implies congruent(
        #[trigger] w[i] as int,
        (x as int) * (differences(witness, rho)[i] as int) + (delta_products(rho)[i] as int),
    ) by {
        let a = witness.a[i + 1];
        let b = running_product(witness.a, i as nat);
        assert(running_product(witness.a, (i + 1) as nat) == fmul(b, a));
        lemma_difference(x, a, b, rho.d[i + 1], deltas(rho)[i], deltas(rho)[i + 1]);
    }
}

/// The verifier accepts the proof of an honest prover: when the statement commits to the
/// vector of the witness and claims the product of its entries, and the dimensions fit, then
/// for every choice of random values and every state of the transcript the prover returns a
/// proof, and this proof verifies.
pub proof fn lemma_honest_proof_is_accepted(
    params: ParametersModel,
    statement: StatementModel,
    witness: WitnessModel,
    rho: RandomnessModel,
    state: Seq<u8>,
)
    requires
        valid_dimensions(params, witness, rho),
        params.n <= params.commit_key.g.len(),
        statement.a_commit == commitment(
            params.commit_key,
            witness.a,
            witness.random_for_a_commit,
        ),
        statement.b == running_product(witness.a, (params.n - 1) as nat),
    ensures
        proving(params, statement, witness, rho, state) is Ok,
        verification(
            params,
            statement,
            proving(params, statement, witness, rho, state)->Ok_0,
            state,
        ) is Ok,
        verified_state(
            params,
            statement,
            proving(params, statement, witness, rho, state)->Ok_0,
            state,
        ) == proved_state(params, statement, witness, rho, state),
{
    let ck = params.commit_key;
    let n = params.n;
    let x = challenge(proving_transcript(params, statement, witness, rho, state));
    let proof = response(params, witness, rho, x);
    assert(proving(params, statement, witness, rho, state) == Ok::<ProofModel, ErrorModel>(proof));
    assert(x == challenge(
        transcript(params, statement, proof.d_commit, proof.delta_commit, proof.diff_commit, state),
    ));
    // The first entries agree.
    assert(proof.a_blinded[0] == proof.b_blinded[0]);
    assert(early_check(params, proof) is Ok);
    // The last running product is the claimed product.
    assert(deltas(rho)[n - 1] == 0);
    lemma_fmul_congruent(x, statement.b, x as int, statement.b as int);
    lemma_fadd_zero(fmul(x, statement.b));
    assert(proof.b_blinded[n - 1] == fmul(x, statement.b));
    // The blinded vector opens the combination of the commitments.
    assert forall|i: int| 0 <= i < proof.a_blinded.len() implies congruent(
        #[trigger] proof.a_blinded[i] as int,
        (x as int) * (witness.a[i] as int) + (rho.d[i] as int),
    ) by {
        lemma_fmul_congruent(x, witness.a[i], x as int, witness.a[i] as int);
        lemma_fadd_congruent(
            fmul(x, witness.a[i]),
            rho.d[i],
            (x as int) * (witness.a[i] as int),
            rho.d[i] as int,
        );
    }
    lemma_fmul_congruent(
        x,
        witness.random_for_a_commit,
        x as int,
        witness.random_for_a_commit as int,
    );
    lemma_fadd_congruent(
        fmul(x, witness.random_for_a_commit),
        rho.r_d,
        (x as int) * (witness.random_for_a_commit as int),
        rho.r_d as int,
    );
    lemma_commitments_combine(
        ck,
        x,
        witness.a,
        witness.random_for_a_commit,
        rho.d,
        rho.r_d,
        proof.a_blinded,
        proof.r_blinded,
    );
    // The blinded differences open the combination of the commitments.
    lemma_differences(witness, rho, x);
    lemma_fmul_congruent(x, rho.s_x, x as int, rho.s_x as int);
    lemma_fadd_congruent(fmul(x, rho.s_x), rho.s_1, (x as int) * (rho.s_x as int), rho.s_1 as int);
    lemma_commitments_combine(
        ck,
        x,
        differences(witness, rho),
        rho.s_x,
        delta_products(rho),
        rho.s_1,
        blinded_differences(proof.a_blinded, proof.b_blinded, x),
        proof.s_blinded,
    );
    assert(late_check(params, statement, proof, x) is Ok);
}

/// The verifier rejects the proof of a prover whose vector is not the committed one: when the
/// statement commits to a vector and the prover uses a vector of the same length whose
/// commitment differs from it, the proof is rejected unless the challenge times the
/// difference of the two commitments vanishes, which happens only when the challenge is zero.
/// Two vectors that differ in one entry have different commitments unless the base of that
/// entry is the neutral element.
pub proof fn lemma_wrong_vector_is_rejected(
    params: ParametersModel,
    statement: StatementModel,
    witness: WitnessModel,
    rho: RandomnessModel,
    state: Seq<u8>,
)
    requires
        valid_dimensions(params, witness, rho),
        params.n <= params.commit_key.g.len(),
        fmul(
            challenge(proving_transcript(params, statement, witness, rho, state)),
            fsub(
                statement.a_commit,
                commitment(params.commit_key, witness.a, witness.random_for_a_commit),
            ),
        ) != 0,
    ensures
        proving(params, statement, witness, rho, state) is Ok,
        verification(
            params,
            statement,
            proving(params, statement, witness, rho, state)->Ok_0,
            state,
        ) == rejection(label()),
{
    let ck = params.commit_key;
    let x = challenge(proving_transcript(params, statement, witness, rho, state));
    let proof = response(params, witness, rho, x);
    let used = commitment(ck, witness.a, witness.random_for_a_commit);
    assert(proving(params, statement, witness, rho, state) == Ok::<ProofModel, ErrorModel>(proof));
    assert(x == challenge(
        transcript(params, statement, proof.d_commit, proof.delta_commit, proof.diff_commit, state),
    ));
    assert(proof.a_blinded[0] == proof.b_blinded[0]);
    assert(early_check(params, proof) is Ok);
    // The blinded vector opens the combination with the commitment to the vector of the
    // prover, which differs from the combination with the commitment of the statement.
    assert forall|i: int| 0 <= i < proof.a_blinded.len() implies congruent(
        #[trigger] proof.a_blinded[i] as int,
        (x as int) * (witness.a[i] as int) + (rho.d[i] as int),
    ) by {
        lemma_fmul_congruent(x, witness.a[i], x as int, witness.a[i] as int);
        lemma_fadd_congruent(
            fmul(x, witness.a[i]),
            rho.d[i],
            (x as int) * (witness.a[i] as int),
            rho.d[i] as int,
        );
    }
    lemma_fmul_congruent(
        x,
        witness.random_for_a_commit,
        x as int,
        witness.random_for_a_commit as int,
    );
    lemma_fadd_congruent(
        fmul(x, witness.random_for_a_commit),
        rho.r_d,
        (x as int) * (witness.random_for_a_commit as int),
        rho.r_d as int,
    );
    lemma_commitments_combine(
        ck,
        x,
        witness.a,
        witness.random_for_a_commit,
        rho.d,
        rho.r_d,
        proof.a_blinded,
        proof.r_blinded,
    );
    let (xi, si, ui, di) = (
        x as int,
        statement.a_commit as int,
        used as int,
        proof.d_commit as int,
    );
    lemma_fmul_congruent(x, statement.a_commit, xi, si);
    lemma_fadd_congruent(fmul(x, statement.a_commit), proof.d_commit, xi * si, di);
    lemma_fmul_congruent(x, used, xi, ui);
    lemma_fadd_congruent(fmul(x, used), proof.d_commit, xi * ui, di);
    lemma_fsub_congruent(statement.a_commit, used, si, ui);
    lemma_fmul_congruent(x, fsub(statement.a_commit, used), xi, si - ui);
    assert(xi * (si - ui) == (xi * si + di) - (xi * ui + di)) by (nonlinear_arith);
    lemma_not_congruent(xi * si + di, xi * ui + di, fmul(x, fsub(statement.a_commit, used)));
    assert(fadd(fmul(x, statement.a_commit), proof.d_commit) != commitment(
        ck,
        proof.a_blinded,
        proof.r_blinded,
    ));
    assert(late_check(params, statement, proof, x) == rejection(label()));
}

/// The verifier rejects the proof of a prover that changed one entry of the committed
/// vector: when the statement commits to a vector and the prover uses this vector with the
/// entry `at` changed, the proof is rejected unless the challenge times the difference of the
/// two entries times the base of the entry vanishes, which for a base other than the neutral
/// element happens only when the challenge is zero.
pub proof fn lemma_changed_entry_is_rejected(
    params: ParametersModel,
    statement: StatementModel,
    committed: Seq<nat>,
    witness: WitnessModel,
    rho: RandomnessModel,
    state: Seq<u8>,
    at: int,
)
    requires
        valid_dimensions(params, witness, rho),
        params.n <= params.commit_key.g.len(),
        committed.len() == params.n,
        0 <= at < params.n,
        forall|i: int| 0 <= i < params.n && i != at ==> committed[i] == witness.a[i],
        statement.a_commit == commitment(
            params.commit_key,
            committed,
            witness.random_for_a_commit,
        ),
        fmul(
            challenge(proving_transcript(params, statement, witness, rho, state)),
            fmul(fsub(committed[at], witness.a[at]), params.commit_key.g[at]),
        ) != 0,
    ensures
        proving(params, statement, witness, rho, state) is Ok,
        verification(
            params,
            statement,
            proving(params, statement, witness, rho, state)->Ok_0,
            state,
        ) == rejection(label()),
{
    lemma_commitments_differ(
        params.commit_key,
        committed,
        witness.a,
        witness.random_for_a_commit,
        at,
    );
    lemma_wrong_vector_is_rejected(params, statement, witness, rho, state);
}

} // verus!
