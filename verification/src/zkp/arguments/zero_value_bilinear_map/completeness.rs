//! What the verifier of the zero-value argument does with the proofs of the prover.
use super::{y_weighted, ParametersModel, StatementModel, WitnessModel};
use super::prover::{
    diagonal, diagonal_partial, extended_a, extended_b, masks, proved_state, proving,
    proving_transcript, response, valid_dimensions, RandomnessModel,
};
use super::verification::{
    early_check, late_check, transcript, verification, verified_state, ProofModel,
};
use crate::error::{rejection, ErrorModel};
use crate::field::{
    congruent, fadd, fmul, fpow, fsub, lemma_congruent_combination, lemma_congruent_reduced,
    lemma_fadd_comm, lemma_fadd_congruent, lemma_fmul_comm, lemma_fmul_congruent, lemma_fpow_adds,
    lemma_fsub_congruent, lemma_neutral, lemma_not_congruent, lemma_weighted_sum_agrees,
    lemma_weighted_sum_congruent, lemma_weighted_sum_front, linear, order, powers, weighted_sum,
};
use crate::summation::{
    lemma_linear_is_sum, lemma_sum_added, lemma_sum_column, lemma_sum_congruent, lemma_sum_equal,
    lemma_sum_exchange, lemma_sum_of_zeros, lemma_sum_row, lemma_sum_scaled, lemma_sum_window,
    sum, sum_column, sum_row,
};
use crate::vector_commitment::pedersen::{
    commitment, commitments_to_rows, lemma_commitment_congruent, lemma_commitment_to_combination,
    partial_combination,
};
use crate::zkp::arguments::{column, combination, descending_powers, lemma_combination_is_partial};
use crate::zkp::transcript::challenge;
use vstd::prelude::*;

verus! {

/// The sum of the maps of the first `upto` pairs of rows of two matrices.
pub open spec fn bilinear_sum(y: nat, a: Seq<Seq<nat>>, b: Seq<Seq<nat>>, n: nat, upto: nat) -> nat
    decreases upto,
{
    if upto == 0 {
        0
    } else {
        fadd(bilinear_sum(y, a, b, n, (upto - 1) as nat), y_weighted(y, a[upto - 1], b[upto - 1], n))
    }
}

/// The map of two vectors stands for the sum of the products of their entries, each weighted
/// with its power of `y`.
pub proof fn lemma_map_congruent(y: nat, a: Seq<nat>, b: Seq<nat>, n: nat, p: spec_fn(int) -> int)
    requires
        forall|j: int|
            0 <= j < n ==> congruent(
                #[trigger] p(j),
                (a[j] as int) * (b[j] as int) * (fpow(y, (j + 1) as nat) as int),
            ),
    ensures
        congruent(y_weighted(y, a, b, n) as int, sum(p, n)),
        y_weighted(y, a, b, n) < order(),
    decreases n,
{
    if n > 0 {
        let k = (n - 1) as nat;
        lemma_map_congruent(y, a, b, k, p);
        lemma_fmul_congruent(a[k as int], b[k as int], a[k as int] as int, b[k as int] as int);
        lemma_fmul_congruent(
            fmul(a[k as int], b[k as int]),
            fpow(y, n),
            (a[k as int] as int) * (b[k as int] as int),
            fpow(y, n) as int,
        );
        assert(congruent(
            p(k as int),
            (a[k as int] as int) * (b[k as int] as int) * (fpow(y, (k + 1) as nat) as int),
        ));
        lemma_fadd_congruent(
            y_weighted(y, a, b, k),
            fmul(fmul(a[k as int], b[k as int]), fpow(y, n)),
            sum(p, k),
            p(k as int),
        );
    }
}

/// The map is symmetric.
pub proof fn lemma_map_symmetric(y: nat, a: Seq<nat>, b: Seq<nat>, n: nat)
    ensures
        y_weighted(y, a, b, n) == y_weighted(y, b, a, n),
    decreases n,
{
    if n > 0 {
        lemma_map_symmetric(y, a, b, (n - 1) as nat);
        lemma_fmul_comm(a[n - 1], b[n - 1]);
    }
}

/// The map is linear in its first argument: when every entry `t[j]` stands for
/// `u[j] + c * v[j]`, the map of `t` and `w` stands for the map of `u` and `w` plus `c` times
/// the map of `v` and `w`.
pub proof fn lemma_map_linear(
    y: nat,
    t: Seq<nat>,
    u: Seq<nat>,
    c: nat,
    v: Seq<nat>,
    w: Seq<nat>,
    n: nat,
)
    requires
        forall|j: int|
            0 <= j < n ==> congruent(
                #[trigger] t[j] as int,
                (u[j] as int) + (c as int) * (v[j] as int),
            ),
    ensures
        congruent(
            y_weighted(y, t, w, n) as int,
            (y_weighted(y, u, w, n) as int) + (c as int) * (y_weighted(y, v, w, n) as int),
        ),
{
    let ci = c as int;
    let pt = |j: int| (t[j] as int) * (w[j] as int) * (fpow(y, (j + 1) as nat) as int);
    let pu = |j: int| (u[j] as int) * (w[j] as int) * (fpow(y, (j + 1) as nat) as int);
    let pv = |j: int| (v[j] as int) * (w[j] as int) * (fpow(y, (j + 1) as nat) as int);
    let cpv = |j: int| ci * pv(j);
    let both = |j: int| pu(j) + cpv(j);
    lemma_map_congruent(y, t, w, n, pt);
    lemma_map_congruent(y, u, w, n, pu);
    lemma_map_congruent(y, v, w, n, pv);
    assert forall|j: int| 0 <= j < n implies congruent(#[trigger] pt(j), both(j)) by {
        let (wi, yi) = (w[j] as int, fpow(y, (j + 1) as nat) as int);
        let (ti, ui, vi) = (t[j] as int, u[j] as int, v[j] as int);
        assert(congruent(ti, ui + ci * vi));
        lemma_congruent_combination(ti, wi * yi, 0, ui + ci * vi, wi * yi, 0);
        let z = wi * yi;
        assert(ti * z == ti * wi * yi) by (nonlinear_arith)
            requires
                z == wi * yi,
        ;
        assert(ui * z == ui * wi * yi) by (nonlinear_arith)
            requires
                z == wi * yi,
        ;
        assert(vi * z == vi * wi * yi) by (nonlinear_arith)
            requires
                z == wi * yi,
        ;
        assert((ci * vi) * z == ci * (vi * z)) by (nonlinear_arith);
        assert((ui + ci * vi) * z == ui * z + (ci * vi) * z) by (nonlinear_arith);
    }
    lemma_sum_congruent(pt, both, n);
    lemma_sum_added(pu, cpv, both, n);
    lemma_sum_scaled(ci, pv, cpv, n);
    lemma_congruent_combination(
        ci,
        y_weighted(y, v, w, n) as int,
        y_weighted(y, u, w, n) as int,
        ci,
        sum(pv, n),
        sum(pu, n),
    );
}

/// The map of a scaled vector and a vector stands for the factor times the map of the two
/// vectors.
pub proof fn lemma_map_scaled(y: nat, c: nat, v: Seq<nat>, w: Seq<nat>, n: nat)
    requires
        n <= v.len(),
    ensures
        congruent(
            y_weighted(y, Seq::new(v.len(), |j: int| fmul(c, v[j])), w, n) as int,
            (c as int) * (y_weighted(y, v, w, n) as int),
        ),
    decreases n,
{
    let scaled = Seq::new(v.len(), |j: int| fmul(c, v[j]));
    if n > 0 {
        let k = (n - 1) as nat;
        lemma_map_scaled(y, c, v, w, k);
        let (ci, wi, yi) = (c as int, w[k as int] as int, fpow(y, n) as int);
        {
            let vi = v[k as int] as int;
            lemma_fmul_congruent(c, v[k as int], ci, vi);
            lemma_fmul_congruent(fmul(c, v[k as int]), w[k as int], ci * vi, wi);
            lemma_fmul_congruent(fmul(fmul(c, v[k as int]), w[k as int]), fpow(y, n), ci * vi * wi, yi);
            lemma_fmul_congruent(v[k as int], w[k as int], vi, wi);
            lemma_fmul_congruent(fmul(v[k as int], w[k as int]), fpow(y, n), vi * wi, yi);
            lemma_fadd_congruent(
                y_weighted(y, scaled, w, k),
                fmul(fmul(scaled[k as int], w[k as int]), fpow(y, n)),
                ci * (y_weighted(y, v, w, k) as int),
                ci * vi * wi * yi,
            );
            lemma_fadd_congruent(
                y_weighted(y, v, w, k),
                fmul(fmul(v[k as int], w[k as int]), fpow(y, n)),
                y_weighted(y, v, w, k) as int,
                vi * wi * yi,
            );
            lemma_congruent_combination(
                ci,
                y_weighted(y, v, w, n) as int,
                0,
                ci,
                (y_weighted(y, v, w, k) as int) + vi * wi * yi,
                0,
            );
            assert(ci * (y_weighted(y, v, w, k) as int) + ci * vi * wi * yi == ci * ((y_weighted(
                y,
                v,
                w,
                k,
            ) as int) + vi * wi * yi)) by (nonlinear_arith);
        }
    } else {
        assert((c as int) * 0 == 0);
    }
}

/// The sum of the maps of the pairs of rows of two matrices stands for the sum of what the
/// maps stand for.
pub proof fn lemma_bilinear_sum_congruent(
    y: nat,
    a: Seq<Seq<nat>>,
    b: Seq<Seq<nat>>,
    n: nat,
    upto: nat,
    t: spec_fn(int) -> int,
)
    requires
        forall|i: int| 0 <= i < upto ==> congruent(y_weighted(y, a[i], b[i], n) as int, #[trigger] t(i)),
    ensures
        congruent(bilinear_sum(y, a, b, n, upto) as int, sum(t, upto)),
        bilinear_sum(y, a, b, n, upto) < order(),
    decreases upto,
{
    if upto > 0 {
        let i = (upto - 1) as nat;
        lemma_bilinear_sum_congruent(y, a, b, n, i, t);
        assert(congruent(y_weighted(y, a[i as int], b[i as int], n) as int, t(i as int)));
        lemma_fadd_congruent(
            bilinear_sum(y, a, b, n, i),
            y_weighted(y, a[i as int], b[i as int], n),
            sum(t, i),
            t(i as int),
        );
    }
}

/// The map of a combination of rows and a vector stands for the combination of the maps of
/// the rows and the vector.
pub proof fn lemma_map_of_combination(
    y: nat,
    weights: Seq<nat>,
    rows: Seq<Seq<nat>>,
    v: Seq<nat>,
    n: nat,
    k: nat,
    e: spec_fn(int) -> int,
)
    requires
        k <= rows.len(),
        forall|i: int|
            0 <= i < k ==> #[trigger] e(i) == (weights[i] as int) * (y_weighted(y, rows[i], v, n)
                as int),
    ensures
        congruent(y_weighted(y, partial_combination(weights, rows, n, k), v, n) as int, sum(e, k)),
    decreases k,
{
    if k == 0 {
        let zero = |j: int| 0int;
        let zeros = partial_combination(weights, rows, n, 0);
        assert forall|j: int| 0 <= j < n implies congruent(
            #[trigger] zero(j),
            (zeros[j] as int) * (v[j] as int) * (fpow(y, (j + 1) as nat) as int),
        ) by {
            assert(zeros[j] == 0);
            assert(0 * (v[j] as int) * (fpow(y, (j + 1) as nat) as int) == 0) by (nonlinear_arith);
        }
        lemma_map_congruent(y, zeros, v, n, zero);
        lemma_sum_of_zeros(zero, n);
    } else {
        let p = (k - 1) as nat;
        lemma_map_of_combination(y, weights, rows, v, n, p, e);
        let before = partial_combination(weights, rows, n, p);
        let after = partial_combination(weights, rows, n, k);
        let factor = weights[p as int];
        assert forall|j: int| 0 <= j < n implies congruent(
            #[trigger] after[j] as int,
            (before[j] as int) + (factor as int) * (rows[p as int][j] as int),
        ) by {
            let column = Seq::new(rows.len(), |i: int| rows[i][j]);
            assert(after[j] == fadd(before[j], fmul(factor, column[p as int])));
            lemma_fmul_congruent(factor, rows[p as int][j], factor as int, rows[p as int][j] as int);
            lemma_fadd_congruent(
                before[j],
                fmul(factor, rows[p as int][j]),
                before[j] as int,
                (factor as int) * (rows[p as int][j] as int),
            );
        }
        lemma_map_linear(y, after, before, factor, rows[p as int], v, n);
        lemma_congruent_combination(
            1,
            y_weighted(y, before, v, n) as int,
            (factor as int) * (y_weighted(y, rows[p as int], v, n) as int),
            1,
            sum(e, p),
            e(p as int),
        );
    }
}

/// A diagonal stands for the sum of the maps of the pairs of rows that meet on it.
pub proof fn lemma_diagonal_congruent(
    y: nat,
    a: Seq<Seq<nat>>,
    b: Seq<Seq<nat>>,
    m: nat,
    n: nat,
    k: nat,
    upto: nat,
    c: spec_fn(int) -> int,
)
    requires
        forall|i: int|
            0 <= i < upto ==> #[trigger] c(i) == (if k <= i + m && i + m - k <= m {
                y_weighted(y, a[i], b[i + m - k], n) as int
            } else {
                0
            }),
    ensures
        congruent(diagonal_partial(y, a, b, m, n, k, upto) as int, sum(c, upto)),
        diagonal_partial(y, a, b, m, n, k, upto) < order(),
    decreases upto,
{
    if upto > 0 {
        let i = (upto - 1) as nat;
        lemma_diagonal_congruent(y, a, b, m, n, k, i, c);
        assert(c(i as int) == (if k <= i + m && i + m - k <= m {
            y_weighted(y, a[i as int], b[i + m - k], n) as int
        } else {
            0
        }));
        if k <= i + m && i + m - k <= m {
            lemma_fadd_congruent(
                diagonal_partial(y, a, b, m, n, k, i),
                y_weighted(y, a[i as int], b[i + m - k], n),
                sum(c, i),
                y_weighted(y, a[i as int], b[i + m - k], n) as int,
            );
        }
    }
}

/// The diagonal `m + 1` of the extended matrices is the sum of the maps of the rows of the
/// two matrices of the witness.
pub proof fn lemma_middle_diagonal(
    y: nat,
    a_0: Seq<nat>,
    a: Seq<Seq<nat>>,
    b: Seq<Seq<nat>>,
    b_m: Seq<nat>,
    m: nat,
    n: nat,
    upto: nat,
)
    requires
        a.len() == m,
        b.len() == m,
        1 <= upto <= m + 1,
    ensures
        diagonal_partial(y, seq![a_0] + a, b.push(b_m), m, n, m + 1, upto) == bilinear_sum(
            y,
            a,
            b,
            n,
            (upto - 1) as nat,
        ),
    decreases upto,
{
    let ea = seq![a_0] + a;
    let eb = b.push(b_m);
    if upto == 1 {
        assert(diagonal_partial(y, ea, eb, m, n, m + 1, 0) == 0);
    } else {
        let i = (upto - 1) as nat;
        lemma_middle_diagonal(y, a_0, a, b, b_m, m, n, i);
        assert(ea[i as int] == a[i - 1]);
        assert(eb[i - 1] == b[i - 1]);
        assert(i + m - (m + 1) == i - 1);
    }
}

/// The product of the weights of the rows `i` and `l` of the two extended matrices with the
/// map of the two rows: `x^i * x^(m - l) * (a[i] * b[l])`.
pub open spec fn weighted_map(
    x: nat,
    y: nat,
    a: Seq<Seq<nat>>,
    b: Seq<Seq<nat>>,
    m: nat,
    n: nat,
    i: int,
    l: int,
) -> int {
    (fpow(x, i as nat) as int) * (fpow(x, (m - l) as nat) as int) * (y_weighted(y, a[i], b[l], n)
        as int)
}

/// The sum of the weighted maps of all pairs of rows of the two extended matrices.
pub open spec fn weighted_maps(x: nat, y: nat, a: Seq<Seq<nat>>, b: Seq<Seq<nat>>, m: nat, n: nat) -> int {
    sum(
        |i: int| sum_row(|i: int, l: int| weighted_map(x, y, a, b, m, n, i, l), i, m + 1),
        m + 1,
    )
}

/// The map of the two blinded vectors stands for the sum of the weighted maps of all pairs of
/// rows.
proof fn lemma_map_of_blinded(x: nat, y: nat, a: Seq<Seq<nat>>, b: Seq<Seq<nat>>, m: nat, n: nat)
    requires
        a.len() == m + 1,
        b.len() == m + 1,
    ensures
        congruent(
            y_weighted(
                y,
                combination(powers(x, m + 1), a, n),
                combination(descending_powers(x, m + 1), b, n),
                n,
            ) as int,
            weighted_maps(x, y, a, b, m, n),
        ),
        y_weighted(
            y,
            combination(powers(x, m + 1), a, n),
            combination(descending_powers(x, m + 1), b, n),
            n,
        ) < order(),
{
    let rising = powers(x, m + 1);
    let falling = descending_powers(x, m + 1);
    let a_blinded = combination(rising, a, n);
    let b_blinded = combination(falling, b, n);
    let f = |i: int, l: int| weighted_map(x, y, a, b, m, n, i, l);
    let total = |i: int| sum_row(f, i, m + 1);
    let e1 = |i: int| (rising[i] as int) * (y_weighted(y, a[i], b_blinded, n) as int);
    lemma_combination_is_partial(rising, a, n);
    lemma_combination_is_partial(falling, b, n);
    lemma_map_of_combination(y, rising, a, b_blinded, n, m + 1, e1);
    assert forall|i: int| 0 <= i < m + 1 implies congruent(#[trigger] e1(i), total(i)) by {
        let e2 = |l: int| (falling[l] as int) * (y_weighted(y, b[l], a[i], n) as int);
        lemma_map_symmetric(y, a[i], b_blinded, n);
        lemma_map_of_combination(y, falling, b, a[i], n, m + 1, e2);
        let scaled = |l: int| (rising[i] as int) * e2(l);
        lemma_sum_scaled(rising[i] as int, e2, scaled, m + 1);
        let row = |l: int| f(i, l);
        assert forall|l: int| 0 <= l < m + 1 implies #[trigger] scaled(l) == row(l) by {
            lemma_map_symmetric(y, b[l], a[i], n);
            assert((rising[i] as int) * ((falling[l] as int) * (y_weighted(y, a[i], b[l], n)
                as int)) == (rising[i] as int) * (falling[l] as int) * (y_weighted(
                y,
                a[i],
                b[l],
                n,
            ) as int)) by (nonlinear_arith);
        }
        lemma_sum_equal(scaled, row, m + 1);
        lemma_sum_row(f, i, row, m + 1);
        lemma_congruent_combination(
            rising[i] as int,
            y_weighted(y, a[i], b_blinded, n) as int,
            0,
            rising[i] as int,
            sum(e2, m + 1),
            0,
        );
    }
    lemma_sum_congruent(e1, total, m + 1);
    lemma_map_congruent(
        y,
        a_blinded,
        b_blinded,
        n,
        |j: int| (a_blinded[j] as int) * (b_blinded[j] as int) * (fpow(y, (j + 1) as nat) as int),
    );
}

/// The combination of the diagonals with the powers of the challenge stands for the sum of
/// the weighted maps of all pairs of rows.
proof fn lemma_combination_of_diagonals(
    x: nat,
    y: nat,
    a: Seq<Seq<nat>>,
    b: Seq<Seq<nat>>,
    m: nat,
    n: nat,
    d: Seq<nat>,
)
    requires
        a.len() == m + 1,
        b.len() == m + 1,
        d.len() == 2 * m + 1,
        forall|k: int| 0 <= k < 2 * m + 1 ==> #[trigger] d[k] == diagonal(y, a, b, m, n, k as nat),
    ensures
        congruent(
            weighted_sum(powers(x, 2 * m + 1), d, 2 * m + 1) as int,
            weighted_maps(x, y, a, b, m, n),
        ),
        weighted_sum(powers(x, 2 * m + 1), d, 2 * m + 1) < order(),
{
    let all = powers(x, 2 * m + 1);
    let f = |i: int, l: int| weighted_map(x, y, a, b, m, n, i, l);
    let total = |i: int| sum_row(f, i, m + 1);
    // The terms of the combination, diagonal by diagonal and row by row.
    let g = |k: int, i: int|
        if k <= i + m && i + m - k <= m {
            (fpow(x, k as nat) as int) * (y_weighted(y, a[i], b[i + m - k], n) as int)
        } else {
            0
        };
    let by_diagonal = |k: int| sum_row(g, k, m + 1);
    let by_row = |i: int| sum_column(g, i, 2 * m + 1);
    let p = |k: int| (all[k] as int) * (d[k] as int);
    lemma_weighted_sum_congruent(all, d, 2 * m + 1);
    lemma_linear_is_sum(all, d, p, 2 * m + 1);
    assert forall|k: int| 0 <= k < 2 * m + 1 implies congruent(#[trigger] p(k), by_diagonal(k)) by {
        let c = |i: int|
            if k <= i + m && i + m - k <= m {
                y_weighted(y, a[i], b[i + m - k], n) as int
            } else {
                0
            };
        lemma_diagonal_congruent(y, a, b, m, n, k as nat, m + 1, c);
        let scaled = |i: int| (fpow(x, k as nat) as int) * c(i);
        lemma_sum_scaled(fpow(x, k as nat) as int, c, scaled, m + 1);
        let row = |i: int| g(k, i);
        assert forall|i: int| 0 <= i < m + 1 implies #[trigger] scaled(i) == row(i) by {
            assert((fpow(x, k as nat) as int) * 0 == 0);
        }
        lemma_sum_equal(scaled, row, m + 1);
        lemma_sum_row(g, k, row, m + 1);
        lemma_congruent_combination(
            all[k] as int,
            d[k] as int,
            0,
            fpow(x, k as nat) as int,
            sum(c, m + 1),
            0,
        );
    }
    lemma_sum_congruent(p, by_diagonal, 2 * m + 1);
    lemma_sum_exchange(g, by_diagonal, by_row, 2 * m + 1, m + 1);
    assert forall|i: int| 0 <= i < m + 1 implies congruent(#[trigger] by_row(i), total(i)) by {
        let h = |l: int| (fpow(x, (i + m - l) as nat) as int) * (y_weighted(y, a[i], b[l], n) as int);
        let w = |k: int| g(k, i);
        lemma_sum_column(g, i, w, 2 * m + 1);
        assert forall|k: int| 0 <= k < 2 * m + 1 implies #[trigger] w(k) == (if i <= k <= i + m {
            h(i + m - k)
        } else {
            0
        }) by {
            if i <= k <= i + m {
                assert(i + m - (i + m - k) == k);
            }
        }
        lemma_sum_window(h, w, i as nat, m, 2 * m + 1);
        let row = |l: int| f(i, l);
        assert forall|l: int| 0 <= l < m + 1 implies congruent(#[trigger] h(l), row(l)) by {
            lemma_fpow_adds(x, i as nat, (m - l) as nat);
            assert(i as nat + (m - l) as nat == (i + m - l) as nat);
            lemma_congruent_combination(
                fpow(x, (i + m - l) as nat) as int,
                y_weighted(y, a[i], b[l], n) as int,
                0,
                (fpow(x, i as nat) as int) * (fpow(x, (m - l) as nat) as int),
                y_weighted(y, a[i], b[l], n) as int,
                0,
            );
        }
        lemma_sum_congruent(h, row, m + 1);
        lemma_sum_row(f, i, row, m + 1);
    }
    lemma_sum_congruent(by_row, total, m + 1);
}

/// Whether the statement holds the commitments to the rows of the two matrices of the
/// witness, with the randomness of the witness.
pub open spec fn commits_to(
    params: ParametersModel,
    statement: StatementModel,
    witness: WitnessModel,
) -> bool {
    &&& statement.commitment_to_a == commitments_to_rows(
        params.commit_key,
        witness.matrix_a,
        witness.randoms_for_a_commit,
    )
    &&& statement.commitment_to_b == commitments_to_rows(
        params.commit_key,
        witness.matrix_b,
        witness.randoms_for_b_commit,
    )
}

/// The blinded rows of an honest proof open the combinations of the commitments.
pub proof fn lemma_blinded_rows_open(
    params: ParametersModel,
    statement: StatementModel,
    witness: WitnessModel,
    rho: RandomnessModel,
    x: nat,
)
    requires
        valid_dimensions(params, statement, witness, rho),
        commits_to(params, statement, witness),
    ensures
        ({
            let m = params.m;
            let ck = params.commit_key;
            let proof = response(params, statement, witness, rho, x);
            let rising = powers(x, 2 * m + 1).subrange(1, m as int + 1);
            &&& fadd(proof.a_0_commit, weighted_sum(rising, statement.commitment_to_a, m))
                == commitment(ck, proof.a_blinded, proof.r_blinded)
            &&& fadd(proof.b_m_commit, weighted_sum(rising.reverse(), statement.commitment_to_b, m))
                == commitment(ck, proof.b_blinded, proof.s_blinded)
        }),
{
    let m = params.m;
    let n = params.n;
    let ck = params.commit_key;
    let proof = response(params, statement, witness, rho, x);
    let rising = powers(x, 2 * m + 1).subrange(1, m as int + 1);
    // The rows of A.
    let ea = extended_a(witness, rho);
    let ra = seq![rho.r_0] + witness.randoms_for_a_commit;
    let up = powers(x, m + 1);
    lemma_combination_is_partial(up, ea, n);
    assert forall|i: int| 0 <= i < m + 1 implies (#[trigger] ea[i]).len() == n by {
        if i > 0 {
            assert(ea[i] == witness.matrix_a[i - 1]);
        }
    }
    lemma_commitment_to_combination(ck, up, ea, ra, n, m + 1);
    let ca = commitments_to_rows(ck, ea, ra);
    assert(ca =~= seq![proof.a_0_commit] + statement.commitment_to_a) by {
        assert forall|i: int| 0 <= i < m + 1 implies ca[i] == (seq![proof.a_0_commit]
            + statement.commitment_to_a)[i] by {
            if i > 0 {
                assert(ea[i] == witness.matrix_a[i - 1]);
                assert(ra[i] == witness.randoms_for_a_commit[i - 1]);
            }
        }
    }
    assert(up =~= seq![1nat] + rising);
    lemma_weighted_sum_front(1, proof.a_0_commit, rising, statement.commitment_to_a, m);
    lemma_commitment_congruent(ck, rho.a_0, rho.r_0);
    lemma_neutral(proof.a_0_commit);
    // The rows of B.
    let eb = extended_b(witness, rho);
    let rb = witness.randoms_for_b_commit.push(rho.s_m);
    let down = descending_powers(x, m + 1);
    lemma_combination_is_partial(down, eb, n);
    assert forall|i: int| 0 <= i < m + 1 implies (#[trigger] eb[i]).len() == n by {
        if i < m {
            assert(eb[i] == witness.matrix_b[i]);
        }
    }
    lemma_commitment_to_combination(ck, down, eb, rb, n, m + 1);
    let cb = commitments_to_rows(ck, eb, rb);
    assert(cb[m as int] == proof.b_m_commit);
    assert(down[m as int] == 1);
    assert forall|i: int| 0 <= i < m implies down[i] == rising.reverse()[i] && cb[i]
        == statement.commitment_to_b[i] by {
        assert(eb[i] == witness.matrix_b[i]);
        assert(rb[i] == witness.randoms_for_b_commit[i]);
    }
    lemma_weighted_sum_agrees(down, cb, rising.reverse(), statement.commitment_to_b, m);
    lemma_commitment_congruent(ck, rho.b_m, rho.s_m);
    lemma_neutral(proof.b_m_commit);
    lemma_fadd_comm(
        proof.b_m_commit,
        weighted_sum(rising.reverse(), statement.commitment_to_b, m),
    );
}

/// The blinded diagonal of an honest proof opens the combination of the committed
/// diagonals.
proof fn lemma_blinded_diagonal_opens(
    params: ParametersModel,
    statement: StatementModel,
    witness: WitnessModel,
    rho: RandomnessModel,
    x: nat,
)
    requires
        valid_dimensions(params, statement, witness, rho),
    ensures
        ({
            let m = params.m;
            let proof = response(params, statement, witness, rho, x);
            weighted_sum(powers(x, 2 * m + 1), proof.vector_of_committed_diagonals, 2 * m + 1)
                == commitment(
                params.commit_key,
                seq![
                    y_weighted(
                        statement.bilinear_map.y,
                        proof.a_blinded,
                        proof.b_blinded,
                        statement.bilinear_map.n,
                    ),
                ],
                proof.t_blinded,
            )
        }),
{
    let m = params.m;
    let n = params.n;
    let y = statement.bilinear_map.y;
    let ck = params.commit_key;
    let proof = response(params, statement, witness, rho, x);
    let all = powers(x, 2 * m + 1);
    let ea = extended_a(witness, rho);
    let eb = extended_b(witness, rho);
    let d = Seq::new(2 * m + 1, |k: int| diagonal(y, ea, eb, m, n, k as nat));
    let rows = Seq::new(2 * m + 1, |k: int| seq![d[k]]);
    let t = masks(m, rho);
    lemma_commitment_to_combination(ck, all, rows, t, 1, 2 * m + 1);
    assert(commitments_to_rows(ck, rows, t) =~= proof.vector_of_committed_diagonals);
    lemma_map_of_blinded(x, y, ea, eb, m, n);
    lemma_combination_of_diagonals(x, y, ea, eb, m, n, d);
    lemma_congruent_reduced(
        weighted_sum(all, d, 2 * m + 1),
        y_weighted(y, proof.a_blinded, proof.b_blinded, n),
    );
    assert(partial_combination(all, rows, 1, 2 * m + 1) =~= seq![
        y_weighted(y, proof.a_blinded, proof.b_blinded, n),
    ]) by {
        assert(Seq::new(rows.len(), |i: int| rows[i][0]) =~= d);
    }
}

/// The verifier accepts the proof of an honest prover: when the statement holds the
/// commitments to the rows of the matrices of the witness, the maps of the pairs of rows add
/// up to zero, and the dimensions fit, then for every choice of random values and every state
/// of the transcript the prover returns a proof, and this proof verifies.
pub proof fn lemma_honest_proof_is_accepted(
    params: ParametersModel,
    statement: StatementModel,
    witness: WitnessModel,
    rho: RandomnessModel,
    state: Seq<u8>,
)
    requires
        valid_dimensions(params, statement, witness, rho),
        params.n <= params.commit_key.g.len(),
        1 <= params.commit_key.g.len(),
        commits_to(params, statement, witness),
        bilinear_sum(
            statement.bilinear_map.y,
            witness.matrix_a,
            witness.matrix_b,
            params.n,
            params.m,
        ) == 0,
    ensures
        proving(params, statement, witness, rho, state) is Ok,
        verification(
            params,
            statement,
            proving(params, statement, witness, rho, state)->Ok_0,
            state,
        ) is Ok,
        verified_state(
            params,
            statement,
            proving(params, statement, witness, rho, state)->Ok_0,
            state,
        ) == proved_state(params, statement, witness, rho, state),
{
    let m = params.m;
    let n = params.n;
    let x = challenge(proving_transcript(params, statement, witness, rho, state));
    let proof = response(params, statement, witness, rho, x);
    assert(proving(params, statement, witness, rho, state) == Ok::<ProofModel, ErrorModel>(proof));
    assert(x == challenge(
        transcript(
            params,
            statement,
            proof.a_0_commit,
            proof.b_m_commit,
            proof.vector_of_committed_diagonals,
            state,
        ),
    ));
    // The middle diagonal is committed to as zero with no randomness.
    lemma_middle_diagonal(
        statement.bilinear_map.y,
        rho.a_0,
        witness.matrix_a,
        witness.matrix_b,
        rho.b_m,
        m,
        n,
        m + 1,
    );
    assert(masks(m, rho)[m as int + 1] == 0);
    assert(early_check(params, proof) is Ok);
    lemma_blinded_rows_open(params, statement, witness, rho, x);
    lemma_blinded_diagonal_opens(params, statement, witness, rho, x);
    assert(late_check(params, statement, proof, x) is Ok);
}

/// The verifier rejects the proof of a prover whose first matrix is not the committed one:
/// when the combination of the commitments of the statement with the powers of the challenge
/// differs from the same combination of the commitments to the rows of the prover, the proof
/// is rejected.
pub proof fn lemma_wrong_rows_are_rejected(
    params: ParametersModel,
    statement: StatementModel,
    witness: WitnessModel,
    rho: RandomnessModel,
    state: Seq<u8>,
)
    requires
        valid_dimensions(params, statement, witness, rho),
        params.n <= params.commit_key.g.len(),
        1 <= params.commit_key.g.len(),
        statement.commitment_to_a.len() == params.m,
        ({
            let x = challenge(proving_transcript(params, statement, witness, rho, state));
            let rising = powers(x, 2 * params.m + 1).subrange(1, params.m as int + 1);
            fsub(
                weighted_sum(rising, statement.commitment_to_a, params.m),
                weighted_sum(
                    rising,
                    commitments_to_rows(
                        params.commit_key,
                        witness.matrix_a,
                        witness.randoms_for_a_commit,
                    ),
                    params.m,
                ),
            ) != 0
        }),
    ensures
        proving(params, statement, witness, rho, state) is Ok,
        verification(
            params,
            statement,
            proving(params, statement, witness, rho, state)->Ok_0,
            state,
        ) is Err,
{
    let m = params.m;
    let ck = params.commit_key;
    let x = challenge(proving_transcript(params, statement, witness, rho, state));
    let proof = response(params, statement, witness, rho, x);
    let rising = powers(x, 2 * m + 1).subrange(1, m as int + 1);
    assert(proving(params, statement, witness, rho, state) == Ok::<ProofModel, ErrorModel>(proof));
    assert(x == challenge(
        transcript(
            params,
            statement,
            proof.a_0_commit,
            proof.b_m_commit,
            proof.vector_of_committed_diagonals,
            state,
        ),
    ));
    // The statement that holds the commitments to the rows of the prover.
    let own = StatementModel {
        commitment_to_a: commitments_to_rows(ck, witness.matrix_a, witness.randoms_for_a_commit),
        commitment_to_b: commitments_to_rows(ck, witness.matrix_b, witness.randoms_for_b_commit),
        bilinear_map: statement.bilinear_map,
    };
    lemma_blinded_rows_open(params, own, witness, rho, x);
    assert(response(params, own, witness, rho, x) == proof);
    let stated = weighted_sum(rising, statement.commitment_to_a, m);
    let opened = weighted_sum(rising, own.commitment_to_a, m);
    lemma_weighted_sum_congruent(rising, statement.commitment_to_a, m);
    lemma_weighted_sum_congruent(rising, own.commitment_to_a, m);
    lemma_fadd_congruent(proof.a_0_commit, stated, proof.a_0_commit as int, stated as int);
    lemma_fadd_congruent(proof.a_0_commit, opened, proof.a_0_commit as int, opened as int);
    lemma_fsub_congruent(stated, opened, stated as int, opened as int);
    lemma_not_congruent(
        (proof.a_0_commit as int) + (stated as int),
        (proof.a_0_commit as int) + (opened as int),
        fsub(stated, opened),
    );
    if early_check(params, proof) is Ok {
        assert(late_check(params, statement, proof, x) == rejection(super::label()));
    }
}

} // verus!
