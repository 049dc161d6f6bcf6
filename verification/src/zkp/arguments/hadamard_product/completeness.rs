//! What the verifier of the Hadamard-product argument does with the proofs of the prover.
use super::{
    challenge_x, challenge_y, challenged_state, minus_ones, zero_parameters, zero_statement,
    ParametersModel, StatementModel, WitnessModel,
};
use super::prover::{
    partial_product, partial_products, product_commitments, product_randoms, proved_state,
    proving, reduced_proving, valid_dimensions, zero_witness, RandomnessModel,
};
use super::super::zero_value_bilinear_map as zero_argument;
use super::verification::{
    early_check, reduced_verification, verification, verified_state, ProofModel,
};
use crate::error::{rejection, ErrorModel};
use crate::field::{
    congruent, fmul, fpow, fsub, lemma_congruent_combination, lemma_congruent_reduced,
    lemma_fmul_congruent, lemma_fneg_congruent, lemma_weighted_sums_differ, powers,
};
use crate::summation::{lemma_sum_congruent, lemma_sum_equal, lemma_sum_scaled, sum};
use crate::vector_commitment::pedersen::{
    commitment, commitments_to_rows, lemma_commitment_scales, lemma_commitment_to_combination,
    vector_scaled,
};
use crate::zkp::arguments::{combination, has_shape, lemma_combination_is_partial, rising_powers};
use crate::zkp::transcript::challenge;
use vstd::prelude::*;
use zero_argument::completeness::{
    bilinear_sum, lemma_bilinear_sum_congruent, lemma_map_congruent, lemma_map_of_combination,
    lemma_map_scaled, lemma_map_symmetric,
};
use zero_argument::y_weighted;

verus! {

/// The partial products of the rows of a matrix have as many entries as the rows.
pub proof fn lemma_partial_product_length(a: Seq<Seq<nat>>, m: nat, n: nat, i: nat)
    requires
        has_shape(a, m, n),
        i < m,
    ensures
        partial_product(a, i).len() == n,
    decreases i,
{
    if i > 0 {
        lemma_partial_product_length(a, m, n, (i - 1) as nat);
    }
}

/// The map of a row and the partial product before it cancels the map of the partial product
/// with it and the vector of minus ones.
proof fn lemma_step_cancels(y: nat, a: Seq<Seq<nat>>, m: nat, n: nat, i: nat)
    requires
        has_shape(a, m, n),
        i + 1 < m,
    ensures
        congruent(
            y_weighted(y, partial_product(a, i), a[i as int + 1], n) as int,
            -(y_weighted(y, partial_product(a, i + 1), minus_ones(n), n) as int),
        ),
{
    let before = partial_product(a, i);
    let after = partial_product(a, i + 1);
    let row = a[i as int + 1];
    let ones = minus_ones(n);
    lemma_partial_product_length(a, m, n, i);
    let p = |j: int| (before[j] as int) * (row[j] as int) * (fpow(y, (j + 1) as nat) as int);
    let q = |j: int| (after[j] as int) * (ones[j] as int) * (fpow(y, (j + 1) as nat) as int);
    let negated = |j: int| (-1) * q(j);
    lemma_map_congruent(y, before, row, n, p);
    lemma_map_congruent(y, after, ones, n, q);
    assert forall|j: int| 0 <= j < n implies congruent(#[trigger] p(j), negated(j)) by {
        let (bi, ri, yi) = (before[j] as int, row[j] as int, fpow(y, (j + 1) as nat) as int);
        assert(after[j] == fmul(before[j], row[j]));
        lemma_fmul_congruent(before[j], row[j], bi, ri);
        lemma_fneg_congruent(1, 1);
        lemma_congruent_combination(after[j] as int, ones[j] as int, 0, bi * ri, -1, 0);
        lemma_congruent_combination(
            (after[j] as int) * (ones[j] as int),
            yi,
            0,
            bi * ri * (-1),
            yi,
            0,
        );
        assert((-1) * (bi * ri * (-1) * yi) == bi * ri * yi) by (nonlinear_arith);
        lemma_congruent_combination(-1, q(j), 0, -1, bi * ri * (-1) * yi, 0);
    }
    lemma_sum_congruent(p, negated, n);
    lemma_sum_scaled(-1, q, negated, n);
    lemma_congruent_combination(
        -1,
        sum(q, n),
        0,
        -1,
        y_weighted(y, after, ones, n) as int,
        0,
    );
}

/// The instance of the zero-value argument that the argument reduces to holds: the maps of
/// the pairs of rows of its witness add up to zero.
proof fn lemma_reduction_vanishes(
    params: ParametersModel,
    witness: WitnessModel,
    rho: RandomnessModel,
    x: nat,
    y: nat,
)
    requires
        params.m >= 2,
        has_shape(witness.matrix_a, params.m, params.n),
    ensures
        bilinear_sum(
            y,
            zero_witness(params, witness, rho, x).matrix_a,
            zero_witness(params, witness, rho, x).matrix_b,
            params.n,
            params.m,
        ) == 0,
{
    let m = params.m;
    let n = params.n;
    let a = witness.matrix_a;
    let za = zero_witness(params, witness, rho, x).matrix_a;
    let zb = zero_witness(params, witness, rho, x).matrix_b;
    let ones = minus_ones(n);
    let weights = rising_powers(x, (m - 1) as nat);
    let later = partial_products(a).subrange(1, m as int);
    let e = |k: int| (weights[k] as int) * (y_weighted(y, later[k], ones, n) as int);
    let negated = |k: int| (-1) * e(k);
    let t = |i: int|
        if i < m - 1 {
            negated(i)
        } else {
            sum(e, (m - 1) as nat)
        };
    assert forall|i: int| 0 <= i < m implies congruent(
        y_weighted(y, za[i], zb[i], n) as int,
        #[trigger] t(i),
    ) by {
        if i < m - 1 {
            let product = partial_product(a, i as nat);
            let factor = fpow(x, (i + 1) as nat);
            lemma_partial_product_length(a, m, n, i as nat);
            assert(za[i] == a[i + 1]);
            assert(zb[i] =~= Seq::new(product.len(), |j: int| fmul(factor, product[j])));
            lemma_map_symmetric(y, za[i], zb[i], n);
            lemma_map_scaled(y, factor, product, a[i + 1], n);
            lemma_step_cancels(y, a, m, n, i as nat);
            assert(later[i] == partial_product(a, (i + 1) as nat));
            lemma_congruent_combination(
                factor as int,
                y_weighted(y, product, a[i + 1], n) as int,
                0,
                factor as int,
                -(y_weighted(y, later[i], ones, n) as int),
                0,
            );
            assert((factor as int) * (-(y_weighted(y, later[i], ones, n) as int)) == (-1) * ((
            factor as int) * (y_weighted(y, later[i], ones, n) as int))) by (nonlinear_arith);
        } else {
            assert(za[i] == ones);
            assert(zb[i] == combination(weights, later, n));
            lemma_combination_is_partial(weights, later, n);
            lemma_map_symmetric(y, za[i], zb[i], n);
            lemma_map_of_combination(y, weights, later, ones, n, (m - 1) as nat, e);
        }
    }
    lemma_bilinear_sum_congruent(y, za, zb, n, m, t);
    // The terms cancel.
    assert(sum(t, m) == sum(t, (m - 1) as nat) + t(m - 1));
    lemma_sum_equal(t, negated, (m - 1) as nat);
    lemma_sum_scaled(-1, e, negated, (m - 1) as nat);
    assert(sum(t, m) == 0);
    lemma_congruent_reduced(bilinear_sum(y, za, zb, n, m), 0);
}

/// The statement of the zero-value argument that the argument reduces to holds the
/// commitments to the rows of its witness.
proof fn lemma_reduction_commits(
    params: ParametersModel,
    statement: StatementModel,
    witness: WitnessModel,
    rho: RandomnessModel,
    x: nat,
    y: nat,
)
    requires
        valid_dimensions(params, statement, witness, rho),
        statement.commitment_to_a == commitments_to_rows(
            params.commit_key,
            witness.matrix_a,
            witness.randoms_for_a_commit,
        ),
    ensures
        zero_argument::completeness::commits_to(
            zero_parameters(params),
            zero_statement(params, statement, product_commitments(params, witness, rho), x, y),
            zero_witness(params, witness, rho, x),
        ),
{
    let m = params.m;
    let n = params.n;
    let ck = params.commit_key;
    let b_commits = product_commitments(params, witness, rho);
    let zs = zero_statement(params, statement, b_commits, x, y);
    let zw = zero_witness(params, witness, rho, x);
    let randoms = product_randoms(witness, rho);
    let products = partial_products(witness.matrix_a);
    // The first matrix.
    assert(zs.commitment_to_a =~= commitments_to_rows(ck, zw.matrix_a, zw.randoms_for_a_commit));
    // The second matrix.
    let weights = rising_powers(x, (m - 1) as nat);
    let later = products.subrange(1, m as int);
    let later_randoms = randoms.subrange(1, m as int);
    assert forall|i: int| 0 <= i < m implies zs.commitment_to_b[i] == commitments_to_rows(
        ck,
        zw.matrix_b,
        zw.randoms_for_b_commit,
    )[i] by {
        if i < m - 1 {
            let product = partial_product(witness.matrix_a, i as nat);
            let factor = fpow(x, (i + 1) as nat);
            lemma_commitment_scales(ck, factor, product, randoms[i]);
            assert(zw.matrix_b[i] =~= vector_scaled(
                factor,
                product,
            ));
        } else {
            assert forall|k: int| 0 <= k < m - 1 implies (#[trigger] later[k]).len() == n by {
                lemma_partial_product_length(witness.matrix_a, m, n, (k + 1) as nat);
            }
            lemma_commitment_to_combination(ck, weights, later, later_randoms, n, (m - 1) as nat);
            lemma_combination_is_partial(weights, later, n);
            assert(commitments_to_rows(ck, later, later_randoms) =~= b_commits.subrange(
                1,
                m as int,
            ));
        }
    }
    assert(zs.commitment_to_b =~= commitments_to_rows(
        ck,
        zw.matrix_b,
        zw.randoms_for_b_commit,
    ));
}

/// The verifier accepts the proof of an honest prover: when the statement holds the
/// commitments to the rows of the matrix of the witness and the commitment to the entry-wise
/// product of all rows, and the dimensions fit, then for every choice of random values and
/// every state of the transcript the prover returns a proof, and this proof verifies.
pub proof fn lemma_honest_proof_is_accepted(
    params: ParametersModel,
    statement: StatementModel,
    witness: WitnessModel,
    rho: RandomnessModel,
    state: Seq<u8>,
)
    requires
        valid_dimensions(params, statement, witness, rho),
        rho.zero.a_0.len() == params.n,
        rho.zero.b_m.len() == params.n,
        rho.zero.t.len() == 2 * params.m + 1,
        params.n <= params.commit_key.g.len(),
        1 <= params.commit_key.g.len(),
        statement.commitment_to_a == commitments_to_rows(
            params.commit_key,
            witness.matrix_a,
            witness.randoms_for_a_commit,
        ),
        witness.vector_b == partial_product(witness.matrix_a, (params.m - 1) as nat),
        statement.commitment_to_b == commitment(
            params.commit_key,
            witness.vector_b,
            witness.random_for_b_commit,
        ),
    ensures
        proving(params, statement, witness, rho, state) is Ok,
        verification(
            params,
            statement,
            proving(params, statement, witness, rho, state)->Ok_0,
            state,
        ) is Ok,
        verified_state(
            params,
            statement,
            proving(params, statement, witness, rho, state)->Ok_0,
            state,
        ) == proved_state(params, statement, witness, rho, state),
{
    let m = params.m;
    let n = params.n;
    let b_commits = product_commitments(params, witness, rho);
    let x = challenge_x(params, b_commits, state);
    let y = challenge_y(params, b_commits, state);
    let zp = zero_parameters(params);
    let zs = zero_statement(params, statement, b_commits, x, y);
    let zw = zero_witness(params, witness, rho, x);
    let after = challenged_state(params, b_commits, state);
    // The instance of the zero-value argument is an honest one.
    assert(has_shape(zw.matrix_a, m, n));
    assert(has_shape(zw.matrix_b, m, n)) by {
        assert forall|i: int| 0 <= i < m implies (#[trigger] zw.matrix_b[i]).len() == n by {
            if i < m - 1 {
                lemma_partial_product_length(witness.matrix_a, m, n, i as nat);
            }
        }
    }
    assert(zero_argument::prover::valid_dimensions(zp, zs, zw, rho.zero));
    lemma_reduction_commits(params, statement, witness, rho, x, y);
    lemma_reduction_vanishes(params, witness, rho, x, y);
    zero_argument::completeness::lemma_honest_proof_is_accepted(zp, zs, zw, rho.zero, after);
    let zero_arg_proof = reduced_proving(params, statement, witness, rho, state)->Ok_0;
    let proof = ProofModel { b_commits, zero_arg_proof };
    assert(proving(params, statement, witness, rho, state) == Ok::<ProofModel, ErrorModel>(proof));
    // The first and the last partial product are committed to as the statement says.
    assert(product_randoms(witness, rho)[0] == witness.randoms_for_a_commit[0]);
    assert(product_randoms(witness, rho)[m - 1] == witness.random_for_b_commit);
    assert(early_check(params, statement, proof) is Ok);
    assert(reduced_verification(params, statement, proof, state) is Ok);
}

/// The challenge of the zero-value argument that the argument reduces to.
pub open spec fn reduced_challenge(
    params: ParametersModel,
    statement: StatementModel,
    witness: WitnessModel,
    rho: RandomnessModel,
    state: Seq<u8>,
) -> nat {
    let b_commits = product_commitments(params, witness, rho);
    let x = challenge_x(params, b_commits, state);
    let y = challenge_y(params, b_commits, state);
    challenge(
        zero_argument::prover::proving_transcript(
            zero_parameters(params),
            zero_statement(params, statement, b_commits, x, y),
            zero_witness(params, witness, rho, x),
            rho.zero,
            challenged_state(params, b_commits, state),
        ),
    )
}

/// The verifier rejects the proof of a prover one of whose rows is not the committed one:
/// when the prover uses a matrix whose row `at` is not the row that the statement commits to,
/// while the statement holds the commitments to its other rows, the proof is rejected, unless
/// the commitment to the row of the prover is the commitment of the statement or, for a row
/// other than the first, the challenge of the zero-value argument is zero.
pub proof fn lemma_flipped_row_is_rejected(
    params: ParametersModel,
    statement: StatementModel,
    witness: WitnessModel,
    rho: RandomnessModel,
    state: Seq<u8>,
    at: int,
)
    requires
        valid_dimensions(params, statement, witness, rho),
        rho.zero.a_0.len() == params.n,
        rho.zero.b_m.len() == params.n,
        rho.zero.t.len() == 2 * params.m + 1,
        params.n <= params.commit_key.g.len(),
        1 <= params.commit_key.g.len(),
        0 <= at < params.m,
        forall|i: int|
            0 <= i < params.m && i != at ==> #[trigger] statement.commitment_to_a[i] == commitment(
                params.commit_key,
                witness.matrix_a[i],
                witness.randoms_for_a_commit[i],
            ),
        at == 0 ==> statement.commitment_to_a[0] != commitment(
            params.commit_key,
            witness.matrix_a[0],
            witness.randoms_for_a_commit[0],
        ),
        at > 0 ==> fmul(
            fpow(reduced_challenge(params, statement, witness, rho, state), at as nat),
            fsub(
                statement.commitment_to_a[at],
                commitment(
                    params.commit_key,
                    witness.matrix_a[at],
                    witness.randoms_for_a_commit[at],
                ),
            ),
        ) != 0,
    ensures
        proving(params, statement, witness, rho, state) is Ok,
        verification(
            params,
            statement,
            proving(params, statement, witness, rho, state)->Ok_0,
            state,
        ) == rejection(super::label()),
{
    let m = params.m;
    let n = params.n;
    let ck = params.commit_key;
    let b_commits = product_commitments(params, witness, rho);
    let x = challenge_x(params, b_commits, state);
    let y = challenge_y(params, b_commits, state);
    let zp = zero_parameters(params);
    let zs = zero_statement(params, statement, b_commits, x, y);
    let zw = zero_witness(params, witness, rho, x);
    let after = challenged_state(params, b_commits, state);
    assert(has_shape(zw.matrix_a, m, n));
    assert(has_shape(zw.matrix_b, m, n)) by {
        assert forall|i: int| 0 <= i < m implies (#[trigger] zw.matrix_b[i]).len() == n by {
            if i < m - 1 {
                lemma_partial_product_length(witness.matrix_a, m, n, i as nat);
            }
        }
    }
    assert(zero_argument::prover::valid_dimensions(zp, zs, zw, rho.zero));
    assert(zero_argument::prover::proving(zp, zs, zw, rho.zero, after) is Ok);
    let zero_arg_proof = reduced_proving(params, statement, witness, rho, state)->Ok_0;
    let proof = ProofModel { b_commits, zero_arg_proof };
    assert(proving(params, statement, witness, rho, state) == Ok::<ProofModel, ErrorModel>(proof));
    if at == 0 {
        assert(product_randoms(witness, rho)[0] == witness.randoms_for_a_commit[0]);
        assert(b_commits[0] == commitment(
            ck,
            witness.matrix_a[0],
            witness.randoms_for_a_commit[0],
        ));
        assert(early_check(params, statement, proof) is Err);
    } else if early_check(params, statement, proof) is Ok {
        let x0 = reduced_challenge(params, statement, witness, rho, state);
        let rising = powers(x0, 2 * m + 1).subrange(1, m as int + 1);
        let own = commitments_to_rows(ck, zw.matrix_a, zw.randoms_for_a_commit);
        assert forall|i: int| 0 <= i < m && i != at - 1 implies zs.commitment_to_a[i]
            == own[i] by {
            if i < m - 1 {
                assert(zs.commitment_to_a[i] == statement.commitment_to_a[i + 1]);
            }
        }
        lemma_weighted_sums_differ(rising, zs.commitment_to_a, own, m, at - 1);
        assert(rising[at - 1] == fpow(x0, at as nat));
        assert(zs.commitment_to_a[at - 1] == statement.commitment_to_a[at]);
        assert(own[at - 1] == commitment(
            ck,
            witness.matrix_a[at],
            witness.randoms_for_a_commit[at],
        ));
        zero_argument::completeness::lemma_wrong_rows_are_rejected(zp, zs, zw, rho.zero, after);
        assert(reduced_verification(params, statement, proof, state) is Err);
    }
}

} // verus!
