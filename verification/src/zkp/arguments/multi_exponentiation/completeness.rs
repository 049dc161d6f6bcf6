//! What the verifier of the multi-exponentiation argument does with the proofs of the
//! prover.
use super::{aggregate, column_count, row_count, ParametersModel, StatementModel, WitnessModel};
use super::prover::{
    diagonal, diagonal_partial, diagonals, encryption_randoms, exponent_randoms, exponents,
    extended, proved_state, proving, proving_transcript, response, valid_dimensions,
    RandomnessModel,
};
use super::verification::{
    late_check, verification, verified_state, verifying_transcript, ProofModel,
};
use crate::error::ErrorModel;
use crate::field::{
    congruent, fadd, fmul, fpow, lemma_congruent_combination, lemma_congruent_reduced,
    lemma_fadd_comm, lemma_fadd_congruent, lemma_fmul_congruent, lemma_fmul_zero, lemma_fpow_adds,
    lemma_neutral, lemma_weighted_sum_congruent, lemma_weighted_sum_front, linear, order, powers,
    weighted_sum,
};
use crate::homomorphic_encryption::el_gamal::{cipher_sum, cipher_weighted_sum, encryption};
use crate::summation::{
    lemma_linear_is_sum, lemma_sum_added, lemma_sum_column, lemma_sum_congruent, lemma_sum_equal,
    lemma_sum_exchange, lemma_sum_forward_window, lemma_sum_row, lemma_sum_scaled, sum,
    sum_column, sum_row,
};
use crate::vector_commitment::pedersen::{
    commitment, commitments_to_rows, lemma_commitment_congruent, lemma_commitment_to_combination,
    lemma_linear_of_combination, lemma_linear_scaled, partial_combination,
};
use crate::zkp::arguments::{combination, lemma_combination_is_partial, scaled};
use crate::zkp::transcript::challenge;
use vstd::prelude::*;

verus! {

/// One of the two points of a ciphertext.
pub open spec fn component(c: (nat, nat), second: bool) -> nat {
    if second {
        c.1
    } else {
        c.0
    }
}

/// The same point of every ciphertext of a vector.
pub open spec fn components(v: Seq<(nat, nat)>, second: bool) -> Seq<nat> {
    Seq::new(v.len(), |i: int| component(v[i], second))
}

/// Two ciphertexts with the same points are the same.
pub proof fn lemma_same_components(a: (nat, nat), b: (nat, nat))
    requires
        component(a, false) == component(b, false),
        component(a, true) == component(b, true),
    ensures
        a == b,
{
}

/// A weighted sum of ciphertexts is the pair of the weighted sums of their points.
pub proof fn lemma_cipher_weighted_sum_component(
    s: Seq<nat>,
    v: Seq<(nat, nat)>,
    n: nat,
    second: bool,
)
    requires
        n <= v.len(),
    ensures
        component(cipher_weighted_sum(s, v, n), second) == weighted_sum(s, components(v, second), n),
    decreases n,
{
    if n > 0 {
        lemma_cipher_weighted_sum_component(s, v, (n - 1) as nat, second);
    }
}

/// The sum over the first `upto` rows of ciphertexts of the row raised to the row of
/// exponents with the same index.
pub open spec fn rows_product(a: Seq<Seq<nat>>, rows: Seq<Seq<(nat, nat)>>, n: nat, upto: nat) -> (
    nat,
    nat,
)
    decreases upto,
{
    if upto == 0 {
        (0nat, 0nat)
    } else {
        cipher_sum(
            rows_product(a, rows, n, (upto - 1) as nat),
            cipher_weighted_sum(a[upto - 1], rows[upto - 1], n),
        )
    }
}

/// The product that an honest statement claims: an encryption of the neutral plaintext with
/// the randomness of the witness, plus every ciphertext raised to its exponent.
pub open spec fn committed_product(
    params: ParametersModel,
    statement: StatementModel,
    witness: WitnessModel,
) -> (nat, nat) {
    cipher_sum(
        encryption(params.encrypt_parameters, params.public_key, 0, witness.rho),
        rows_product(
            witness.matrix_a,
            statement.shuffled_ciphers,
            column_count(statement),
            row_count(statement),
        ),
    )
}

/// What the rows of ciphertexts contribute to diagonal `m`: every ciphertext raised to its
/// exponent.
proof fn lemma_middle_diagonal(
    a_0: Seq<nat>,
    a: Seq<Seq<nat>>,
    rows: Seq<Seq<(nat, nat)>>,
    m: nat,
    n: nat,
    upto: nat,
)
    requires
        a.len() == m,
        upto <= m,
    ensures
        diagonal_partial(seq![a_0] + a, rows, m, n, m, upto) == rows_product(a, rows, n, upto),
    decreases upto,
{
    if upto > 0 {
        let i = (upto - 1) as nat;
        lemma_middle_diagonal(a_0, a, rows, m, n, i);
        assert((seq![a_0] + a)[m + i + 1 - m] == a[i as int]);
    }
}

/// What the rows of ciphertexts contribute to a diagonal stands, point by point, for the sum
/// of the inner products of the rows that meet on it.
proof fn lemma_diagonal_congruent(
    a: Seq<Seq<nat>>,
    rows: Seq<Seq<(nat, nat)>>,
    m: nat,
    n: nat,
    k: nat,
    upto: nat,
    second: bool,
    c: spec_fn(int) -> int,
)
    requires
        forall|i: int| 0 <= i < upto ==> n <= (#[trigger] rows[i]).len(),
        forall|i: int|
            0 <= i < upto ==> #[trigger] c(i) == (if k + i + 1 >= m && k + i + 1 - m <= m {
                linear(a[k + i + 1 - m], components(rows[i], second), n)
            } else {
                0
            }),
    ensures
        congruent(component(diagonal_partial(a, rows, m, n, k, upto), second) as int, sum(c, upto)),
        component(diagonal_partial(a, rows, m, n, k, upto), second) < order(),
    decreases upto,
{
    if upto > 0 {
        let i = (upto - 1) as nat;
        lemma_diagonal_congruent(a, rows, m, n, k, i, second, c);
        assert(c(i as int) == (if k + i + 1 >= m && k + i + 1 - m <= m {
            linear(a[k + i + 1 - m], components(rows[i as int], second), n)
        } else {
            0
        }));
        if k + i + 1 >= m && k + i + 1 - m <= m {
            let row = a[k + i + 1 - m];
            assert(n <= rows[i as int].len());
            lemma_cipher_weighted_sum_component(row, rows[i as int], n, second);
            lemma_weighted_sum_congruent(row, components(rows[i as int], second), n);
            lemma_fadd_congruent(
                component(diagonal_partial(a, rows, m, n, k, i), second),
                weighted_sum(row, components(rows[i as int], second), n),
                sum(c, i),
                linear(row, components(rows[i as int], second), n),
            );
        }
    }
}

/// The sum that the verifier takes over the rows of ciphertexts exists when every row has the
/// length of the blinded exponents, and stands, point by point, for the sum of the inner
/// products of the blinded exponents and the rows, row `i` weighted with `x^(m - 1 - i)`.
proof fn lemma_aggregate_congruent(
    a: Seq<nat>,
    x: nat,
    rows: Seq<Seq<(nat, nat)>>,
    upto: nat,
    second: bool,
    t: spec_fn(int) -> int,
)
    requires
        upto <= rows.len(),
        forall|i: int| 0 <= i < upto ==> (#[trigger] rows[i]).len() == a.len(),
        forall|i: int|
            0 <= i < upto ==> #[trigger] t(i) == (fpow(x, (rows.len() - 1 - i) as nat) as int)
                * linear(a, components(rows[i], second), a.len()),
    ensures
        aggregate(a, x, rows, upto) is Ok,
        congruent(component(aggregate(a, x, rows, upto)->Ok_0, second) as int, sum(t, upto)),
        component(aggregate(a, x, rows, upto)->Ok_0, second) < order(),
    decreases upto,
{
    if upto > 0 {
        let i = (upto - 1) as nat;
        lemma_aggregate_congruent(a, x, rows, i, second, t);
        let factor = fpow(x, (rows.len() - 1 - i) as nat);
        let scaled_a = scaled(factor, a);
        let points = components(rows[i as int], second);
        assert(rows[i as int].len() == a.len());
        lemma_cipher_weighted_sum_component(scaled_a, rows[i as int], a.len(), second);
        lemma_weighted_sum_congruent(scaled_a, points, a.len());
        lemma_linear_scaled(factor, a, points, a.len());
        assert(scaled_a =~= Seq::new(a.len(), |j: int| fmul(factor, a[j])));
        assert(t(i as int) == (factor as int) * linear(a, points, a.len()));
        lemma_fadd_congruent(
            component(aggregate(a, x, rows, i)->Ok_0, second),
            weighted_sum(scaled_a, points, a.len()),
            sum(t, i),
            t(i as int),
        );
    }
}

/// The terms that meet on the diagonals, added up diagonal by diagonal with the powers of the
/// challenge, are the terms added up row by row: for terms `l(j, i)` of the rows `j` of
/// exponents and `i` of ciphertexts, the sum over the diagonals `k` of `x^k` times the sum of
/// the `l(k + i + 1 - m, i)` stands for the sum over the rows `i` of `x^(m - 1 - i)` times the
/// sum of the `x^j * l(j, i)`.
proof fn lemma_crossing(
    x: nat,
    m: nat,
    l: spec_fn(int, int) -> int,
    by_diagonal: spec_fn(int) -> int,
    by_row: spec_fn(int) -> int,
)
    requires
        forall|k: int|
            0 <= k < 2 * m + 1 ==> #[trigger] by_diagonal(k) == (fpow(x, k as nat) as int) * sum_row(
                |k: int, i: int|
                    if k + i + 1 >= m && k + i + 1 - m <= m {
                        l(k + i + 1 - m, i)
                    } else {
                        0
                    },
                k,
                m,
            ),
        forall|i: int|
            0 <= i < m ==> #[trigger] by_row(i) == (fpow(x, (m - 1 - i) as nat) as int) * sum_row(
                |i: int, j: int| (fpow(x, j as nat) as int) * l(j, i),
                i,
                m + 1,
            ),
    ensures
        congruent(sum(by_diagonal, 2 * m + 1), sum(by_row, m)),
{
    let meeting = |k: int, i: int|
        if k + i + 1 >= m && k + i + 1 - m <= m {
            l(k + i + 1 - m, i)
        } else {
            0
        };
    let weighted = |i: int, j: int| (fpow(x, j as nat) as int) * l(j, i);
    let g = |k: int, i: int| (fpow(x, k as nat) as int) * meeting(k, i);
    let rows_of_g = |k: int| sum_row(g, k, m);
    let columns_of_g = |i: int| sum_column(g, i, 2 * m + 1);
    assert forall|k: int| 0 <= k < 2 * m + 1 implies #[trigger] by_diagonal(k) == rows_of_g(k) by {
        let terms = |i: int| meeting(k, i);
        let scaled_terms = |i: int| g(k, i);
        lemma_sum_row(meeting, k, terms, m);
        lemma_sum_row(g, k, scaled_terms, m);
        lemma_sum_scaled(fpow(x, k as nat) as int, terms, scaled_terms, m);
    }
    lemma_sum_equal(by_diagonal, rows_of_g, 2 * m + 1);
    lemma_sum_exchange(g, rows_of_g, columns_of_g, 2 * m + 1, m);
    assert forall|i: int| 0 <= i < m implies congruent(#[trigger] columns_of_g(i), by_row(i)) by {
        let lo = (m - 1 - i) as nat;
        let h = |j: int| (fpow(x, (j + lo) as nat) as int) * l(j, i);
        let w = |k: int| g(k, i);
        lemma_sum_column(g, i, w, 2 * m + 1);
        assert forall|k: int| 0 <= k < 2 * m + 1 implies #[trigger] w(k) == (if lo <= k <= lo + m {
            h(k - lo)
        } else {
            0
        }) by {
            if lo <= k <= lo + m {
                assert(k + i + 1 - m == k - lo);
            } else {
                assert((fpow(x, k as nat) as int) * 0 == 0);
            }
        }
        lemma_sum_forward_window(h, w, lo, m, 2 * m + 1);
        let terms = |j: int| weighted(i, j);
        let scaled_terms = |j: int| (fpow(x, lo) as int) * terms(j);
        assert forall|j: int| 0 <= j < m + 1 implies congruent(
            #[trigger] h(j),
            scaled_terms(j),
        ) by {
            lemma_fpow_adds(x, lo, j as nat);
            assert(lo + j as nat == (j + lo) as nat);
            lemma_congruent_combination(
                fpow(x, (j + lo) as nat) as int,
                l(j, i),
                0,
                (fpow(x, lo) as int) * (fpow(x, j as nat) as int),
                l(j, i),
                0,
            );
            assert((fpow(x, lo) as int) * (fpow(x, j as nat) as int) * l(j, i) == (fpow(x, lo)
                as int) * ((fpow(x, j as nat) as int) * l(j, i))) by (nonlinear_arith);
        }
        lemma_sum_congruent(h, scaled_terms, m + 1);
        lemma_sum_scaled(fpow(x, lo) as int, terms, scaled_terms, m + 1);
        lemma_sum_row(weighted, i, terms, m + 1);
    }
    lemma_sum_congruent(columns_of_g, by_row, m);
}

/// The sum of the `x^k * (c * v[k])` is `c` times the sum of the `x^k * v[k]`.
proof fn lemma_scaled_terms(all: Seq<nat>, v: Seq<nat>, c: int, n: nat, p: spec_fn(int) -> int)
    requires
        forall|k: int| 0 <= k < n ==> #[trigger] p(k) == (all[k] as int) * (c * (v[k] as int)),
    ensures
        sum(p, n) == c * linear(all, v, n),
{
    let terms = |k: int| (all[k] as int) * (v[k] as int);
    assert forall|k: int| 0 <= k < n implies #[trigger] p(k) == c * terms(k) by {
        assert((all[k] as int) * (c * (v[k] as int)) == c * ((all[k] as int) * (v[k] as int)))
            by (nonlinear_arith);
    }
    lemma_sum_scaled(c, terms, p, n);
    lemma_linear_is_sum(all, v, terms, n);
}

/// The encryptions in the diagonals of an honest proof, combined with the powers of the
/// challenge, stand point by point for the encryption of the blinded exponent with the
/// blinded randomness.
proof fn lemma_encryptions_combine(
    params: ParametersModel,
    all: Seq<nat>,
    b: Seq<nat>,
    tau: Seq<nat>,
    total: nat,
    second: bool,
    p: spec_fn(int) -> int,
)
    requires
        forall|k: int|
            0 <= k < total ==> #[trigger] p(k) == (all[k] as int) * (component(
                encryption(
                    params.encrypt_parameters,
                    params.public_key,
                    fmul(b[k], params.generator),
                    tau[k],
                ),
                second,
            ) as int),
    ensures
        congruent(
            sum(p, total),
            component(
                encryption(
                    params.encrypt_parameters,
                    params.public_key,
                    fmul(weighted_sum(all, b, total), params.generator),
                    weighted_sum(all, tau, total),
                ),
                second,
            ) as int,
        ),
{
    let (pp, pk, gen) = (
        params.encrypt_parameters as int,
        params.public_key as int,
        params.generator as int,
    );
    let b_blinded = weighted_sum(all, b, total);
    let tau_blinded = weighted_sum(all, tau, total);
    lemma_weighted_sum_congruent(all, b, total);
    lemma_weighted_sum_congruent(all, tau, total);
    let masks = |k: int| (all[k] as int) * (pp * (tau[k] as int));
    let keys = |k: int| (all[k] as int) * (pk * (tau[k] as int));
    let messages = |k: int| (all[k] as int) * (gen * (b[k] as int));
    lemma_scaled_terms(all, tau, pp, total, masks);
    lemma_scaled_terms(all, tau, pk, total, keys);
    lemma_scaled_terms(all, b, gen, total, messages);
    if !second {
        assert forall|k: int| 0 <= k < total implies congruent(#[trigger] p(k), masks(k)) by {
            lemma_fmul_congruent(tau[k], params.encrypt_parameters, tau[k] as int, pp);
            lemma_congruent_combination(
                all[k] as int,
                fmul(tau[k], params.encrypt_parameters) as int,
                0,
                all[k] as int,
                pp * (tau[k] as int),
                0,
            );
            assert((tau[k] as int) * pp == pp * (tau[k] as int)) by (nonlinear_arith);
        }
        lemma_sum_congruent(p, masks, total);
        lemma_fmul_congruent(
            tau_blinded,
            params.encrypt_parameters,
            linear(all, tau, total),
            pp,
        );
        assert(linear(all, tau, total) * pp == pp * linear(all, tau, total)) by (nonlinear_arith);
    } else {
        let both = |k: int| messages(k) + keys(k);
        assert forall|k: int| 0 <= k < total implies congruent(#[trigger] p(k), both(k)) by {
            lemma_fmul_congruent(b[k], params.generator, b[k] as int, gen);
            lemma_fmul_congruent(tau[k], params.public_key, tau[k] as int, pk);
            lemma_fadd_congruent(
                fmul(b[k], params.generator),
                fmul(tau[k], params.public_key),
                (b[k] as int) * gen,
                (tau[k] as int) * pk,
            );
            lemma_congruent_combination(
                all[k] as int,
                fadd(fmul(b[k], params.generator), fmul(tau[k], params.public_key)) as int,
                0,
                all[k] as int,
                (b[k] as int) * gen + (tau[k] as int) * pk,
                0,
            );
            assert((all[k] as int) * ((b[k] as int) * gen + (tau[k] as int) * pk) == (all[k] as int)
                * (gen * (b[k] as int)) + (all[k] as int) * (pk * (tau[k] as int)))
                by (nonlinear_arith);
        }
        lemma_sum_congruent(p, both, total);
        lemma_sum_added(messages, keys, both, total);
        lemma_fmul_congruent(b_blinded, params.generator, linear(all, b, total), gen);
        lemma_fmul_congruent(tau_blinded, params.public_key, linear(all, tau, total), pk);
        lemma_fadd_congruent(
            fmul(b_blinded, params.generator),
            fmul(tau_blinded, params.public_key),
            linear(all, b, total) * gen,
            linear(all, tau, total) * pk,
        );
        assert(linear(all, b, total) * gen == gen * linear(all, b, total)) by (nonlinear_arith);
        assert(linear(all, tau, total) * pk == pk * linear(all, tau, total)) by (nonlinear_arith);
    }
}

/// One point of the combination of the diagonals of an honest proof is the same point of the
/// encryption of the blinded exponent plus the sum that the verifier takes over the rows of
/// ciphertexts.
proof fn lemma_diagonals_open_component(
    params: ParametersModel,
    statement: StatementModel,
    witness: WitnessModel,
    rho: RandomnessModel,
    x: nat,
    second: bool,
)
    requires
        valid_dimensions(statement, witness, rho),
    ensures
        ({
            let m = row_count(statement);
            let proof = response(params, statement, witness, rho, x);
            &&& aggregate(proof.a_blinded, x, statement.shuffled_ciphers, m) is Ok
            &&& component(
                cipher_weighted_sum(powers(x, 2 * m + 1), proof.vector_e_k, 2 * m + 1),
                second,
            ) == component(
                cipher_sum(
                    encryption(
                        params.encrypt_parameters,
                        params.public_key,
                        fmul(proof.b_blinded, params.generator),
                        proof.tau_blinded,
                    ),
                    aggregate(proof.a_blinded, x, statement.shuffled_ciphers, m)->Ok_0,
                ),
                second,
            )
        }),
{
    let m = row_count(statement);
    let n = column_count(statement);
    let rows = statement.shuffled_ciphers;
    let proof = response(params, statement, witness, rho, x);
    let all = powers(x, 2 * m + 1);
    let rising = powers(x, m + 1);
    let a = extended(witness, rho);
    let b = exponents(m, rho);
    let tau = encryption_randoms(m, witness, rho);
    let e = proof.vector_e_k;
    let l = |j: int, i: int| linear(a[j], components(rows[i], second), n);
    let meeting = |k: int, i: int|
        if k + i + 1 >= m && k + i + 1 - m <= m {
            l(k + i + 1 - m, i)
        } else {
            0
        };
    let weighted = |i: int, j: int| (fpow(x, j as nat) as int) * l(j, i);
    let by_diagonal = |k: int| (fpow(x, k as nat) as int) * sum_row(meeting, k, m);
    let by_row = |i: int| (fpow(x, (m - 1 - i) as nat) as int) * sum_row(weighted, i, m + 1);
    let encrypted = |k: int|
        (all[k] as int) * (component(
            encryption(
                params.encrypt_parameters,
                params.public_key,
                fmul(b[k], params.generator),
                tau[k],
            ),
            second,
        ) as int);
    let terms = |k: int| (all[k] as int) * (component(e[k], second) as int);
    let split = |k: int| encrypted(k) + by_diagonal(k);
    // The combination of the diagonals.
    lemma_cipher_weighted_sum_component(all, e, 2 * m + 1, second);
    lemma_weighted_sum_congruent(all, components(e, second), 2 * m + 1);
    lemma_linear_is_sum(all, components(e, second), terms, 2 * m + 1);
    assert forall|k: int| 0 <= k < 2 * m + 1 implies congruent(#[trigger] terms(k), split(k)) by {
        let crossing = diagonal_partial(a, rows, m, n, k as nat, m);
        let mask = encryption(
            params.encrypt_parameters,
            params.public_key,
            fmul(b[k], params.generator),
            tau[k],
        );
        let c = |i: int| meeting(k, i);
        assert(e[k] == cipher_sum(mask, crossing));
        lemma_diagonal_congruent(a, rows, m, n, k as nat, m, second, c);
        lemma_sum_row(meeting, k, c, m);
        lemma_fadd_congruent(
            component(mask, second),
            component(crossing, second),
            component(mask, second) as int,
            sum(c, m),
        );
        lemma_congruent_combination(
            all[k] as int,
            component(e[k], second) as int,
            0,
            all[k] as int,
            (component(mask, second) as int) + sum(c, m),
            0,
        );
        assert((all[k] as int) * ((component(mask, second) as int) + sum(c, m)) == (all[k] as int)
            * (component(mask, second) as int) + (all[k] as int) * sum(c, m)) by (nonlinear_arith);
    }
    lemma_sum_congruent(terms, split, 2 * m + 1);
    lemma_sum_added(encrypted, by_diagonal, split, 2 * m + 1);
    lemma_encryptions_combine(params, all, b, tau, 2 * m + 1, second, encrypted);
    lemma_crossing(x, m, l, by_diagonal, by_row);
    // The sum that the verifier takes.
    let t = |i: int|
        (fpow(x, (rows.len() - 1 - i) as nat) as int) * linear(
            proof.a_blinded,
            components(rows[i], second),
            proof.a_blinded.len(),
        );
    lemma_aggregate_congruent(proof.a_blinded, x, rows, m, second, t);
    lemma_combination_is_partial(rising, a, n);
    assert forall|i: int| 0 <= i < m implies congruent(#[trigger] t(i), by_row(i)) by {
        let row_terms = |j: int| (rising[j] as int) * linear(a[j], components(rows[i], second), n);
        lemma_linear_of_combination(rising, a, components(rows[i], second), n, m + 1, row_terms);
        let same = |j: int| weighted(i, j);
        lemma_sum_equal(row_terms, same, m + 1);
        lemma_sum_row(weighted, i, same, m + 1);
        lemma_congruent_combination(
            fpow(x, (m - 1 - i) as nat) as int,
            linear(proof.a_blinded, components(rows[i], second), n),
            0,
            fpow(x, (m - 1 - i) as nat) as int,
            sum(row_terms, m + 1),
            0,
        );
    }
    lemma_sum_congruent(t, by_row, m);
    // Both sides stand for the same field element.
    let mask = encryption(
        params.encrypt_parameters,
        params.public_key,
        fmul(proof.b_blinded, params.generator),
        proof.tau_blinded,
    );
    let taken = aggregate(proof.a_blinded, x, rows, m)->Ok_0;
    lemma_fadd_congruent(
        component(mask, second),
        component(taken, second),
        sum(encrypted, 2 * m + 1),
        sum(by_diagonal, 2 * m + 1),
    );
    lemma_congruent_reduced(
        component(cipher_weighted_sum(all, e, 2 * m + 1), second),
        component(cipher_sum(mask, taken), second),
    );
}

/// The verifier accepts the proof of an honest prover: when the statement holds the
/// commitments to the rows of the exponents of the witness and claims the product of the
/// powers of the ciphertexts, masked with the randomness of the witness, and the dimensions
/// fit, then for every choice of random values and every state of the transcript the prover
/// returns a proof, this proof verifies, and the verifier leaves the transcript in the state
/// in which the prover left it.
pub proof fn lemma_honest_proof_is_accepted(
    params: ParametersModel,
    statement: StatementModel,
    witness: WitnessModel,
    rho: RandomnessModel,
    state: Seq<u8>,
)
    requires
        valid_dimensions(statement, witness, rho),
        column_count(statement) <= params.commit_key.g.len(),
        1 <= params.commit_key.g.len(),
        statement.commitments_to_exponents == commitments_to_rows(
            params.commit_key,
            witness.matrix_a,
            witness.matrix_blinders,
        ),
        statement.product == committed_product(params, statement, witness),
    ensures
        proving(params, statement, witness, rho, state) is Ok,
        verification(
            params,
            statement,
            proving(params, statement, witness, rho, state)->Ok_0,
            state,
        ) is Ok,
        verified_state(
            params,
            statement,
            proving(params, statement, witness, rho, state)->Ok_0,
            state,
        ) == proved_state(params, statement, witness, rho, state),
{
    let m = row_count(statement);
    let n = column_count(statement);
    let ck = params.commit_key;
    let x = challenge(proving_transcript(params, statement, witness, rho, state));
    let proof = response(params, statement, witness, rho, x);
    let all = powers(x, 2 * m + 1);
    let rising = powers(x, m + 1);
    assert(proving(params, statement, witness, rho, state) == Ok::<ProofModel, ErrorModel>(proof));
    assert(x == challenge(verifying_transcript(params, statement, proof, state)));
    // The commitment to the exponent of diagonal `m` is the commitment to zero.
    assert(exponents(m, rho)[m as int] == 0);
    assert(exponent_randoms(m, rho)[m as int] == 0);
    // Diagonal `m` is the claimed product.
    lemma_middle_diagonal(rho.a_0, witness.matrix_a, statement.shuffled_ciphers, m, n, m);
    lemma_fmul_zero(params.generator);
    assert(proof.vector_e_k[m as int] == statement.product);
    // The blinded exponents open the combination of the commitments.
    let a = extended(witness, rho);
    let randoms = seq![rho.r_0] + witness.matrix_blinders;
    lemma_combination_is_partial(rising, a, n);
    assert forall|i: int| 0 <= i < m + 1 implies (#[trigger] a[i]).len() == n by {
        if i > 0 {
            assert(a[i] == witness.matrix_a[i - 1]);
        }
    }
    lemma_commitment_to_combination(ck, rising, a, randoms, n, m + 1);
    let commits = commitments_to_rows(ck, a, randoms);
    assert(commits =~= seq![proof.a_0_commit] + statement.commitments_to_exponents) by {
        assert forall|i: int| 0 <= i < m + 1 implies commits[i] == (seq![proof.a_0_commit]
            + statement.commitments_to_exponents)[i] by {
            if i > 0 {
                assert(a[i] == witness.matrix_a[i - 1]);
                assert(randoms[i] == witness.matrix_blinders[i - 1]);
            }
        }
    }
    assert(rising =~= seq![1nat] + all.subrange(1, m as int + 1));
    lemma_weighted_sum_front(
        1,
        proof.a_0_commit,
        all.subrange(1, m as int + 1),
        statement.commitments_to_exponents,
        m,
    );
    lemma_commitment_congruent(ck, rho.a_0, rho.r_0);
    lemma_neutral(proof.a_0_commit);
    lemma_fadd_comm(
        proof.a_0_commit,
        weighted_sum(all.subrange(1, m as int + 1), statement.commitments_to_exponents, m),
    );
    // The blinded exponent of the diagonals opens the combination of the commitments.
    let singles = Seq::new(2 * m + 1, |k: int| seq![exponents(m, rho)[k]]);
    lemma_commitment_to_combination(ck, all, singles, exponent_randoms(m, rho), 1, 2 * m + 1);
    assert(commitments_to_rows(ck, singles, exponent_randoms(m, rho)) =~= proof.commit_b_k);
    assert(partial_combination(all, singles, 1, 2 * m + 1) =~= seq![proof.b_blinded]) by {
        assert(Seq::new(singles.len(), |i: int| singles[i][0]) =~= exponents(m, rho));
    }
    // The combination of the diagonals.
    lemma_diagonals_open_component(params, statement, witness, rho, x, false);
    lemma_diagonals_open_component(params, statement, witness, rho, x, true);
    lemma_same_components(
        cipher_weighted_sum(all, proof.vector_e_k, 2 * m + 1),
        cipher_sum(
            encryption(
                params.encrypt_parameters,
                params.public_key,
                fmul(proof.b_blinded, params.generator),
                proof.tau_blinded,
            ),
            aggregate(proof.a_blinded, x, statement.shuffled_ciphers, m)->Ok_0,
        ),
    );
    assert(late_check(params, statement, proof, x) is Ok);
}

} // verus!
