//! What the verifier of the shuffle argument does with the proofs of the prover.
use super::{
    multi_exp_parameters, product_parameters, size, valid_statement, ParametersModel,
    StatementModel, WitnessModel,
};
use super::prover::{
    combined, early_failure, exponentiation_proving, index_vector, negated, product_of,
    product_proving, proving, rounds, row_commitments, shifted, RandomnessModel,
};
use super::super::hadamard_product as hadamard_argument;
use super::super::matrix_elements_product as product_argument;
use super::super::multi_exponentiation as multi_exponentiation_argument;
use super::super::single_value_product as single_value_argument;
use super::verification::{
    expected_product, masked_commitments, negated_challenge, verification, ProofModel,
};
use crate::error::ErrorModel;
use crate::field::{
    congruent, fadd, fmul, fneg, fpow, fsub, lemma_congruent_combination, lemma_congruent_reduced,
    lemma_fadd_congruent, lemma_fmul_congruent, lemma_fneg_congruent, lemma_fsub_congruent,
    lemma_neutral, lemma_weighted_sum_congruent, linear, order, weighted_sum,
};
use crate::homomorphic_encryption::el_gamal::{cipher_sum, cipher_weighted_sum, encryption};
use crate::summation::{
    lemma_linear_is_sum, lemma_product_exchange, lemma_product_flatten, lemma_product_permuted,
    lemma_sum_added, lemma_sum_congruent, lemma_sum_equal, lemma_sum_flatten, lemma_sum_permuted,
    lemma_sum_row, lemma_sum_scaled, product, product_column, product_row, sum, sum_row,
};
use crate::utils::permutation::{is_permutation, permuted};
use crate::utils::vector_arithmetic::{entrywise_product, rows};
use crate::vector_commitment::pedersen::{
    commitment, commitments_to_rows, lemma_commitment_congruent, lemma_commitments_combine,
    CommitKeyModel,
};
use crate::zkp::arguments::{has_shape, rising_powers};
use hadamard_argument::prover::partial_product;
use multi_exponentiation_argument::completeness::{
    committed_product, component, components, lemma_cipher_weighted_sum_component,
    lemma_same_components, rows_product,
};
use single_value_argument::prover::running_product;
use vstd::prelude::*;

verus! {

/// The product of the first entries of a vector stands for the product of what the entries
/// stand for.
pub proof fn lemma_product_of_congruent(v: Seq<nat>, upto: nat, p: spec_fn(int) -> int)
    requires
        forall|i: int| 0 <= i < upto ==> congruent(v[i] as int, #[trigger] p(i)),
    ensures
        congruent(product_of(v, upto) as int, product(p, upto)),
        product_of(v, upto) < order(),
    decreases upto,
{
    if upto > 0 {
        let k = (upto - 1) as nat;
        lemma_product_of_congruent(v, k, p);
        assert(congruent(v[k as int] as int, p(k as int)));
        lemma_fmul_congruent(product_of(v, k), v[k as int], product(p, k), p(k as int));
    }
}

/// The factor `y * (j + 1) + x^(j + 1) - z` that the index `j` contributes to the product of
/// the product argument.
pub open spec fn factor(x: nat, y: nat, z: nat, j: int) -> int {
    (y as int) * (j + 1) + (fpow(x, (j + 1) as nat) as int) - (z as int)
}

/// The product that the verifier expects stands for the product of the factors of all
/// indices.
pub proof fn lemma_expected_product_congruent(x: nat, y: nat, z: nat, upto: nat)
    ensures
        congruent(expected_product(x, y, z, upto) as int, product(|j: int| factor(x, y, z, j), upto)),
        expected_product(x, y, z, upto) < order(),
    decreases upto,
{
    if upto > 0 {
        let k = (upto - 1) as nat;
        let f = |j: int| factor(x, y, z, j);
        lemma_expected_product_congruent(x, y, z, k);
        lemma_fmul_congruent(y, upto, y as int, upto as int);
        lemma_fadd_congruent(
            fmul(y, upto),
            fpow(x, upto),
            (y as int) * (upto as int),
            fpow(x, upto) as int,
        );
        lemma_fsub_congruent(
            fadd(fmul(y, upto), fpow(x, upto)),
            z,
            (y as int) * (upto as int) + (fpow(x, upto) as int),
            z as int,
        );
        assert(f(k as int) == (y as int) * (upto as int) + (fpow(x, upto) as int) - (z as int));
        lemma_fmul_congruent(
            expected_product(x, y, z, k),
            fsub(fadd(fmul(y, upto), fpow(x, upto)), z),
            product(f, k),
            f(k as int),
        );
    }
}

/// The running product of a vector stands for the product of what its entries stand for.
pub proof fn lemma_running_product_congruent(a: Seq<nat>, i: nat, p: spec_fn(int) -> int)
    requires
        forall|j: int| 0 <= j <= i ==> congruent(a[j] as int, #[trigger] p(j)),
    ensures
        congruent(running_product(a, i) as int, product(p, i + 1)),
    decreases i,
{
    if i > 0 {
        lemma_running_product_congruent(a, (i - 1) as nat, p);
        assert(congruent(a[i as int] as int, p(i as int)));
        lemma_fmul_congruent(
            running_product(a, (i - 1) as nat),
            a[i as int],
            product(p, i),
            p(i as int),
        );
    } else {
        assert(congruent(a[0] as int, p(0)));
        assert(product(p, 1) == product(p, 0) * p(0));
        assert(1 * p(0) == p(0));
    }
}

/// An entry of the entry-wise product of the first rows of a matrix stands for the product
/// of the entries of its column.
pub proof fn lemma_partial_product_congruent(
    matrix: Seq<Seq<nat>>,
    m: nat,
    n: nat,
    i: nat,
    l: int,
    grid: spec_fn(int, int) -> int,
)
    requires
        has_shape(matrix, m, n),
        i < m,
        0 <= l < n,
        forall|r: int| 0 <= r < m ==> #[trigger] grid(r, l) == matrix[r][l] as int,
    ensures
        congruent(partial_product(matrix, i)[l] as int, product_column(grid, l, i + 1)),
        partial_product(matrix, i).len() == n,
    decreases i,
{
    if i > 0 {
        lemma_partial_product_congruent(matrix, m, n, (i - 1) as nat, l, grid);
        assert(grid(i as int, l) == matrix[i as int][l] as int);
        lemma_fmul_congruent(
            partial_product(matrix, (i - 1) as nat)[l],
            matrix[i as int][l],
            product_column(grid, l, i),
            grid(i as int, l),
        );
    } else {
        assert(grid(0, l) == matrix[0][l] as int);
        assert(product_column(grid, l, 1) == product_column(grid, l, 0) * grid(0, l));
        assert(1 * grid(0, l) == grid(0, l));
    }
}

/// The product of the entries of the matrix that a vector fills is the product of the entries
/// of the vector.
pub proof fn lemma_product_of_entries(v: Seq<nat>, m: nat, n: nat)
    requires
        v.len() == m * n,
        m >= 2,
        n >= 1,
    ensures
        running_product(partial_product(rows(v, m, n), (m - 1) as nat), (n - 1) as nat)
            == product_of(v, m * n),
{
    let matrix = rows(v, m, n);
    let flat = |i: int| v[i] as int;
    let grid = |r: int, l: int| flat(r * n + l);
    let by_row = |r: int| product_row(grid, r, n);
    let by_column = |l: int| product_column(grid, l, m);
    assert forall|r: int| 0 <= r < m implies (#[trigger] matrix[r]).len() == n by {
        assert(0 <= r * n && r * n + n <= m * n) by (nonlinear_arith)
            requires
                0 <= r < m,
                0 <= n,
        ;
    }
    assert(has_shape(matrix, m, n));
    let columns = partial_product(matrix, (m - 1) as nat);
    assert forall|l: int| 0 <= l <= n - 1 implies congruent(
        columns[l] as int,
        #[trigger] by_column(l),
    ) by {
        assert forall|r: int| 0 <= r < m implies #[trigger] grid(r, l) == matrix[r][l] as int by {
            assert(0 <= r * n && r * n + n <= m * n) by (nonlinear_arith)
                requires
                    0 <= r < m,
                    0 <= n,
            ;
        }
        lemma_partial_product_congruent(matrix, m, n, (m - 1) as nat, l, grid);
    }
    lemma_running_product_congruent(columns, (n - 1) as nat, by_column);
    lemma_product_exchange(grid, by_row, by_column, m, n);
    lemma_product_flatten(flat, by_row, m, n);
    lemma_product_of_congruent(v, m * n, flat);
    // Both are reduced.
    assert(m * n >= 1) by (nonlinear_arith)
        requires
            m >= 2,
            n >= 1,
    ;
    assert(running_product(columns, (n - 1) as nat) < order()) by {
        if n == 1 {
            assert(0 <= 0 < n);
            assert forall|r: int| 0 <= r < m implies #[trigger] grid(r, 0) == matrix[r][0] as int by {
                assert(0 <= r * n && r * n + n <= m * n) by (nonlinear_arith)
                    requires
                        0 <= r < m,
                        0 <= n,
                ;
            }
            lemma_partial_product_congruent(matrix, m, n, (m - 1) as nat, 0, grid);
            assert(columns == entrywise_product(
                partial_product(matrix, (m - 2) as nat),
                matrix[m - 1],
            ));
            lemma_partial_product_congruent(matrix, m, n, (m - 2) as nat, 0, grid);
        }
    }
    lemma_congruent_reduced(running_product(columns, (n - 1) as nat), product_of(v, m * n));
}

/// Whether the random values have the dimensions of the statement.
pub open spec fn valid_randomness(statement: StatementModel, rho: RandomnessModel) -> bool {
    let m = statement.m;
    let n = statement.n;
    &&& rho.r.len() == m
    &&& rho.s.len() == m
    &&& rho.product.hadamard.s.len() == m - 2
    &&& rho.product.hadamard.zero.a_0.len() == n
    &&& rho.product.hadamard.zero.b_m.len() == n
    &&& rho.product.hadamard.zero.t.len() == 2 * m + 1
    &&& rho.product.single_value.d.len() == n
    &&& rho.product.single_value.delta.len() == n - 2
    &&& rho.multi_exp.a_0.len() == n
    &&& rho.multi_exp.b.len() == 2 * m + 1
    &&& rho.multi_exp.s.len() == 2 * m + 1
    &&& rho.multi_exp.tau.len() == 2 * m + 1
}

/// Whether the ciphertexts after the shuffle are those before it, rearranged by the
/// permutation of the witness and each masked with an encryption of the neutral plaintext
/// with the randomness of the witness.
pub open spec fn is_shuffle(
    params: ParametersModel,
    statement: StatementModel,
    witness: WitnessModel,
) -> bool {
    forall|i: int|
        0 <= i < statement.shuffled_ciphers.len() ==> #[trigger] statement.shuffled_ciphers[i]
            == cipher_sum(
            statement.input_ciphers[witness.permutation[i] as int],
            encryption(params.encrypt_parameters, params.public_key, 0, witness.rho[i]),
        )
}

/// The rows of the matrix that a vector fills have `n` entries each, and entry `l` of row `r`
/// is entry `r * n + l` of the vector.
proof fn lemma_rows<T>(v: Seq<T>, m: nat, n: nat)
    requires
        v.len() == m * n,
    ensures
        has_shape(rows(v, m, n), m, n),
        forall|r: int, l: int|
            0 <= r < m && 0 <= l < n ==> #[trigger] rows(v, m, n)[r][l] == v[r * n + l],
{
    assert forall|r: int| 0 <= r < m implies (#[trigger] rows(v, m, n)[r]).len() == n && forall|
        l: int,
    | 0 <= l < n ==> rows(v, m, n)[r][l] == v[r * n + l] by {
        assert(0 <= r * n && r * n + n <= m * n) by (nonlinear_arith)
            requires
                0 <= r < m,
                0 <= n,
        ;
    }
}

/// The commitments of the product statement that the verifier forms are the commitments to
/// the rows of the vector `y * a + b - z` with the randomness `y * r + s`.
proof fn lemma_masked_commitments(
    ck: CommitKeyModel,
    a: Seq<nat>,
    b: Seq<nat>,
    r: Seq<nat>,
    s: Seq<nat>,
    y: nat,
    z: nat,
    m: nat,
    n: nat,
)
    requires
        a.len() == m * n,
        b.len() == m * n,
        r.len() == m,
        s.len() == m,
    ensures
        masked_commitments(
            ck,
            row_commitments(ck, a, r, m, n),
            row_commitments(ck, b, s, m, n),
            y,
            z,
            m,
            n,
        ) == row_commitments(ck, shifted(a, b, y, z), combined(r, s, y), m, n),
{
    let a_commits = row_commitments(ck, a, r, m, n);
    let b_commits = row_commitments(ck, b, s, m, n);
    let d = shifted(a, b, y, z);
    let t = combined(r, s, y);
    let masking = negated_challenge(z, n);
    lemma_rows(a, m, n);
    lemma_rows(b, m, n);
    lemma_rows(d, m, n);
    assert forall|i: int| 0 <= i < m implies fadd(
        fadd(fmul(y, a_commits[i]), b_commits[i]),
        commitment(ck, masking, 0),
    ) == row_commitments(ck, d, t, m, n)[i] by {
        let a_row = rows(a, m, n)[i];
        let b_row = rows(b, m, n)[i];
        let d_row = rows(d, m, n)[i];
        let sum_row = Seq::new(n, |l: int| fadd(fmul(y, a_row[l]), b_row[l]));
        assert forall|l: int| 0 <= l < n implies congruent(
            #[trigger] sum_row[l] as int,
            (y as int) * (a_row[l] as int) + (b_row[l] as int),
        ) by {
            lemma_fmul_congruent(y, a_row[l], y as int, a_row[l] as int);
            lemma_fadd_congruent(
                fmul(y, a_row[l]),
                b_row[l],
                (y as int) * (a_row[l] as int),
                b_row[l] as int,
            );
        }
        lemma_fmul_congruent(y, r[i], y as int, r[i] as int);
        lemma_fadd_congruent(fmul(y, r[i]), s[i], (y as int) * (r[i] as int), s[i] as int);
        lemma_commitments_combine(ck, y, a_row, r[i], b_row, s[i], sum_row, t[i]);
        assert forall|l: int| 0 <= l < n implies congruent(
            #[trigger] d_row[l] as int,
            1 * (sum_row[l] as int) + (masking[l] as int),
        ) by {
            assert(0 <= i * n && i * n + n <= m * n) by (nonlinear_arith)
                requires
                    0 <= i < m,
                    0 <= n,
            ;
            assert(d_row[l] == fsub(sum_row[l], z));
            assert(masking[l] == fneg(z));
            lemma_fsub_congruent(sum_row[l], z, sum_row[l] as int, z as int);
            lemma_fneg_congruent(z, z as int);
            lemma_congruent_combination(
                1,
                sum_row[l] as int,
                masking[l] as int,
                1,
                sum_row[l] as int,
                -(z as int),
            );
        }
        lemma_commitments_combine(ck, 1, sum_row, t[i], masking, 0, d_row, t[i]);
        lemma_commitment_congruent(ck, sum_row, t[i]);
        lemma_neutral(commitment(ck, sum_row, t[i]));
    }
    assert(masked_commitments(ck, a_commits, b_commits, y, z, m, n) =~= row_commitments(
        ck,
        d,
        t,
        m,
        n,
    ));
}

/// The product that the verifier expects is the product of the entries of the vector
/// `y * a + b - z`, for the permuted indices `a` and the permuted powers `b` of the prover.
proof fn lemma_expected_is_claimed(pi: Seq<nat>, x: nat, y: nat, z: nat)
    requires
        is_permutation(pi),
        pi.len() >= 1,
    ensures
        expected_product(x, y, z, pi.len()) == product_of(
            shifted(
                permuted(index_vector(pi.len()), pi),
                permuted(rising_powers(x, pi.len()), pi),
                y,
                z,
            ),
            pi.len(),
        ),
{
    let size = pi.len();
    let a = permuted(index_vector(size), pi);
    let b = permuted(rising_powers(x, size), pi);
    let d = shifted(a, b, y, z);
    let f = |j: int| factor(x, y, z, j);
    let g = |i: int| f(pi[i] as int);
    assert forall|i: int| 0 <= i < size implies congruent(d[i] as int, #[trigger] g(i)) by {
        let j = pi[i];
        assert(j < size);
        assert(a[i] == j + 1);
        assert(b[i] == fpow(x, (j + 1) as nat));
        lemma_fmul_congruent(y, a[i], y as int, a[i] as int);
        lemma_fadd_congruent(fmul(y, a[i]), b[i], (y as int) * (a[i] as int), b[i] as int);
        lemma_fsub_congruent(
            fadd(fmul(y, a[i]), b[i]),
            z,
            (y as int) * (a[i] as int) + (b[i] as int),
            z as int,
        );
    }
    lemma_product_of_congruent(d, size, g);
    lemma_product_permuted(f, pi, g);
    lemma_expected_product_congruent(x, y, z, size);
    lemma_congruent_reduced(expected_product(x, y, z, size), product_of(d, size));
}

/// A point of an encryption of the neutral plaintext stands for the randomness times the
/// base of that point.
proof fn lemma_mask_congruent(params: ParametersModel, r: nat, second: bool)
    ensures
        congruent(
            component(encryption(params.encrypt_parameters, params.public_key, 0, r), second)
                as int,
            (r as int) * (base(params, second) as int),
        ),
        component(encryption(params.encrypt_parameters, params.public_key, 0, r), second)
            < order(),
{
    lemma_fmul_congruent(r, params.encrypt_parameters, r as int, params.encrypt_parameters as int);
    lemma_fmul_congruent(r, params.public_key, r as int, params.public_key as int);
    lemma_fadd_congruent(
        0,
        fmul(r, params.public_key),
        0,
        (r as int) * (params.public_key as int),
    );
}

/// The base of one of the two points of a ciphertext: the generator of the encryption for the
/// first, the public key for the second.
pub open spec fn base(params: ParametersModel, second: bool) -> nat {
    if second {
        params.public_key
    } else {
        params.encrypt_parameters
    }
}

/// What the rows of ciphertexts raised to the rows of exponents stand for, point by point:
/// the sum of the inner products of the rows.
proof fn lemma_rows_product_congruent(
    a: Seq<Seq<nat>>,
    rows: Seq<Seq<(nat, nat)>>,
    n: nat,
    upto: nat,
    second: bool,
    c: spec_fn(int) -> int,
)
    requires
        forall|i: int| 0 <= i < upto ==> n <= (#[trigger] rows[i]).len(),
        forall|i: int|
            0 <= i < upto ==> #[trigger] c(i) == linear(a[i], components(rows[i], second), n),
    ensures
        congruent(component(rows_product(a, rows, n, upto), second) as int, sum(c, upto)),
        component(rows_product(a, rows, n, upto), second) < order(),
    decreases upto,
{
    if upto > 0 {
        let i = (upto - 1) as nat;
        lemma_rows_product_congruent(a, rows, n, i, second, c);
        assert(n <= rows[i as int].len());
        assert(c(i as int) == linear(a[i as int], components(rows[i as int], second), n));
        lemma_cipher_weighted_sum_component(a[i as int], rows[i as int], n, second);
        lemma_weighted_sum_congruent(a[i as int], components(rows[i as int], second), n);
        lemma_fadd_congruent(
            component(rows_product(a, rows, n, i), second),
            weighted_sum(a[i as int], components(rows[i as int], second), n),
            sum(c, i),
            c(i as int),
        );
    }
}

/// One point of the three products of the multi-exponentiation statement: the product that
/// the verifier forms from the ciphertexts before the shuffle, the product that the prover
/// forms from the ciphertexts after it, and the product that an honest statement claims, are
/// the same.
proof fn lemma_products_agree_component(
    params: ParametersModel,
    statement: StatementModel,
    witness: WitnessModel,
    x: nat,
    second: bool,
)
    requires
        valid_statement(statement),
        is_permutation(witness.permutation),
        witness.permutation.len() == size(statement),
        witness.rho.len() == size(statement),
        is_shuffle(params, statement, witness),
    ensures
        ({
            let count = size(statement);
            let b = permuted(rising_powers(x, count), witness.permutation);
            let masking = weighted_sum(negated(witness.rho), b, count);
            let mask = encryption(params.encrypt_parameters, params.public_key, 0, masking);
            let formed = cipher_weighted_sum(rising_powers(x, count), statement.input_ciphers, count);
            let proved = cipher_sum(
                cipher_weighted_sum(b, statement.shuffled_ciphers, count),
                mask,
            );
            let claimed = cipher_sum(
                mask,
                rows_product(
                    rows(b, statement.m, statement.n),
                    rows(statement.shuffled_ciphers, statement.m, statement.n),
                    statement.n,
                    statement.m,
                ),
            );
            &&& component(formed, second) == component(proved, second)
            &&& component(claimed, second) == component(proved, second)
        }),
{
    let count = size(statement);
    let (m, n) = (statement.m, statement.n);
    let pi = witness.permutation;
    let rising = rising_powers(x, count);
    let b = permuted(rising, pi);
    let masking = weighted_sum(negated(witness.rho), b, count);
    let mask = encryption(params.encrypt_parameters, params.public_key, 0, masking);
    let input = components(statement.input_ciphers, second);
    let output = components(statement.shuffled_ciphers, second);
    let formed = cipher_weighted_sum(rising, statement.input_ciphers, count);
    let shuffled_sum = cipher_weighted_sum(b, statement.shuffled_ciphers, count);
    let proved = cipher_sum(shuffled_sum, mask);
    let key = base(params, second) as int;
    // The product that the verifier forms.
    let before = |j: int| (rising[j] as int) * (input[j] as int);
    lemma_cipher_weighted_sum_component(rising, statement.input_ciphers, count, second);
    lemma_weighted_sum_congruent(rising, input, count);
    lemma_linear_is_sum(rising, input, before, count);
    // The product that the prover forms.
    let after = |i: int| (b[i] as int) * (output[i] as int);
    let moved = |i: int| before(pi[i] as int);
    let masks = |i: int| key * ((b[i] as int) * (witness.rho[i] as int));
    let unmasked = |i: int| (b[i] as int) * (witness.rho[i] as int);
    let both = |i: int| moved(i) + masks(i);
    lemma_cipher_weighted_sum_component(b, statement.shuffled_ciphers, count, second);
    lemma_weighted_sum_congruent(b, output, count);
    lemma_linear_is_sum(b, output, after, count);
    assert forall|i: int| 0 <= i < count implies congruent(#[trigger] after(i), both(i)) by {
        let j = pi[i];
        assert(j < count);
        lemma_mask_congruent(params, witness.rho[i], second);
        lemma_fadd_congruent(
            input[j as int],
            component(
                encryption(params.encrypt_parameters, params.public_key, 0, witness.rho[i]),
                second,
            ),
            input[j as int] as int,
            (witness.rho[i] as int) * key,
        );
        lemma_congruent_combination(
            b[i] as int,
            output[i] as int,
            0,
            b[i] as int,
            (input[j as int] as int) + (witness.rho[i] as int) * key,
            0,
        );
        assert((b[i] as int) * ((input[j as int] as int) + (witness.rho[i] as int) * key) == (
        b[i] as int) * (input[j as int] as int) + key * ((b[i] as int) * (witness.rho[i] as int)))
            by (nonlinear_arith);
    }
    lemma_sum_congruent(after, both, count);
    lemma_sum_added(moved, masks, both, count);
    lemma_sum_permuted(before, pi, moved);
    lemma_sum_scaled(key, unmasked, masks, count);
    // The randomness of the mask cancels the masks of the ciphertexts.
    let negative = |i: int| (-1) * unmasked(i);
    let opposite = |i: int| (negated(witness.rho)[i] as int) * (b[i] as int);
    lemma_weighted_sum_congruent(negated(witness.rho), b, count);
    lemma_linear_is_sum(negated(witness.rho), b, opposite, count);
    assert forall|i: int| 0 <= i < count implies congruent(#[trigger] opposite(i), negative(i)) by {
        lemma_fneg_congruent(witness.rho[i], witness.rho[i] as int);
        lemma_congruent_combination(
            negated(witness.rho)[i] as int,
            b[i] as int,
            0,
            -(witness.rho[i] as int),
            b[i] as int,
            0,
        );
        assert((-(witness.rho[i] as int)) * (b[i] as int) == (-1) * ((b[i] as int) * (
        witness.rho[i] as int))) by (nonlinear_arith);
    }
    lemma_sum_congruent(opposite, negative, count);
    lemma_sum_scaled(-1, unmasked, negative, count);
    lemma_mask_congruent(params, masking, second);
    lemma_congruent_combination(
        masking as int,
        key,
        0,
        (-1) * sum(unmasked, count),
        key,
        0,
    );
    assert(((-1) * sum(unmasked, count)) * key == -(key * sum(unmasked, count)))
        by (nonlinear_arith);
    lemma_fadd_congruent(
        component(shuffled_sum, second),
        component(mask, second),
        sum(moved, count) + key * sum(unmasked, count),
        -(key * sum(unmasked, count)),
    );
    lemma_congruent_reduced(component(formed, second), component(proved, second));
    // The product that an honest statement claims.
    let exponents = rows(b, m, n);
    let ciphers = rows(statement.shuffled_ciphers, m, n);
    let by_row = |r: int| linear(exponents[r], components(ciphers[r], second), n);
    let grid = |r: int, l: int| after(r * n + l);
    let row_sums = |r: int| sum_row(grid, r, n);
    lemma_rows(b, m, n);
    lemma_rows(statement.shuffled_ciphers, m, n);
    lemma_rows_product_congruent(exponents, ciphers, n, m, second, by_row);
    assert forall|r: int| 0 <= r < m implies #[trigger] by_row(r) == row_sums(r) by {
        let terms = |l: int| (exponents[r][l] as int) * (components(ciphers[r], second)[l] as int);
        let same = |l: int| grid(r, l);
        lemma_linear_is_sum(exponents[r], components(ciphers[r], second), terms, n);
        assert forall|l: int| 0 <= l < n implies #[trigger] terms(l) == same(l) by {
            assert(0 <= r * n && r * n + n <= m * n) by (nonlinear_arith)
                requires
                    0 <= r < m,
                    0 <= n,
            ;
            assert(exponents[r][l] == b[r * n + l]);
            assert(ciphers[r][l] == statement.shuffled_ciphers[r * n + l]);
        }
        lemma_sum_equal(terms, same, n);
        lemma_sum_row(grid, r, same, n);
    }
    lemma_sum_equal(by_row, row_sums, m);
    lemma_sum_flatten(after, row_sums, m, n);
    let claimed = cipher_sum(mask, rows_product(exponents, ciphers, n, m));
    lemma_fadd_congruent(
        component(mask, second),
        component(rows_product(exponents, ciphers, n, m), second),
        -(key * sum(unmasked, count)),
        sum(moved, count) + key * sum(unmasked, count),
    );
    lemma_congruent_reduced(component(claimed, second), component(proved, second));
}

/// The verifier accepts the proof of an honest prover: for every permutation and all
/// masking randomness, when the ciphertexts after the shuffle are those before it, rearranged
/// by the permutation and masked with the randomness, and the dimensions fit and are at least
/// two by two, then for every choice of random values and every state of the transcript the
/// prover returns a proof, and this proof verifies.
pub proof fn lemma_honest_proof_is_accepted(
    params: ParametersModel,
    statement: StatementModel,
    witness: WitnessModel,
    rho: RandomnessModel,
    state: Seq<u8>,
)
    requires
        valid_statement(statement),
        statement.m >= 2,
        statement.n >= 2,
        statement.n <= params.commit_key.g.len(),
        is_permutation(witness.permutation),
        witness.permutation.len() == size(statement),
        witness.rho.len() == size(statement),
        valid_randomness(statement, rho),
        is_shuffle(params, statement, witness),
    ensures
        proving(params, statement, witness, rho, state) is Ok,
        verification(
            params,
            statement,
            proving(params, statement, witness, rho, state)->Ok_0,
            state,
        ) is Ok,
{
    let (m, n) = (statement.m, statement.n);
    let count = size(statement);
    let ck = params.commit_key;
    let played = rounds(params, statement, witness, rho, state);
    assert(early_failure(params, statement, witness, rho) is None);
    // The product argument.
    let product_params = product_parameters(params, statement);
    let product_statement = super::prover::product_statement(params, statement, played);
    let product_witness = super::prover::product_witness(statement, played);
    lemma_rows(played.d_minus_z, m, n);
    assert(product_statement.commitments_to_a =~= commitments_to_rows(
        ck,
        product_witness.matrix_a,
        product_witness.randoms_for_a_commit,
    ));
    lemma_product_of_entries(played.d_minus_z, m, n);
    product_argument::completeness::lemma_honest_proof_is_accepted(
        product_params,
        product_statement,
        product_witness,
        rho.product,
        played.state,
    );
    let product_argument_proof = product_proving(params, statement, witness, rho, state)->Ok_0;
    // The multi-exponentiation argument.
    let exponentiation_params = multi_exp_parameters(params);
    let exponentiation_statement = super::prover::exponentiation_statement(
        params,
        statement,
        played,
    );
    let exponentiation_witness = super::prover::exponentiation_witness(statement, rho, played);
    lemma_rows(played.b, m, n);
    lemma_rows(statement.shuffled_ciphers, m, n);
    lemma_products_agree_component(params, statement, witness, played.x, false);
    lemma_products_agree_component(params, statement, witness, played.x, true);
    let formed = cipher_weighted_sum(
        rising_powers(played.x, count),
        statement.input_ciphers,
        count,
    );
    lemma_same_components(formed, exponentiation_statement.product);
    lemma_same_components(
        committed_product(exponentiation_params, exponentiation_statement, exponentiation_witness),
        exponentiation_statement.product,
    );
    assert(exponentiation_statement.commitments_to_exponents =~= commitments_to_rows(
        ck,
        exponentiation_witness.matrix_a,
        exponentiation_witness.matrix_blinders,
    ));
    multi_exponentiation_argument::completeness::lemma_honest_proof_is_accepted(
        exponentiation_params,
        exponentiation_statement,
        exponentiation_witness,
        rho.multi_exp,
        super::prover::product_state(params, statement, witness, rho, state),
    );
    let multi_exp_proof = exponentiation_proving(params, statement, witness, rho, state)->Ok_0;
    let proof = ProofModel {
        a_commits: played.a_commits,
        b_commits: played.b_commits,
        product_argument_proof,
        multi_exp_proof,
    };
    assert(proving(params, statement, witness, rho, state) == Ok::<ProofModel, ErrorModel>(proof));
    // The statements that the verifier forms are those that the prover proved.
    lemma_masked_commitments(ck, played.a, played.b, rho.r, rho.s, played.y, played.z, m, n);
    lemma_expected_is_claimed(witness.permutation, played.x, played.y, played.z);
    assert(super::verification::product_statement(params, statement, proof, state)
        == product_statement);
    assert(super::verification::exponentiation_statement(params, statement, proof, state)
        == exponentiation_statement);
}

} // verus!
