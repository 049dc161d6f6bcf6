//! The arguments of knowledge that make up the shuffle argument.
use crate::field::{fmul, fpow, matrix_values, powers, scalar_values, weighted_sum, Scalar};
use crate::homomorphic_encryption::el_gamal::{ciphertext_rows, Ciphertext};
use crate::vector_commitment::pedersen::partial_combination;
use vstd::prelude::*;

pub mod hadamard_product;
pub mod matrix_elements_product;
pub mod multi_exponentiation;
pub mod shuffle;
pub mod single_value_product;
pub mod zero_value_bilinear_map;

verus! {

/// The powers `x^(n-1), .., x^1, x^0` of a field element.
pub open spec fn descending_powers(x: nat, n: nat) -> Seq<nat> {
    Seq::new(n, |i: int| fpow(x, (n - 1 - i) as nat))
}

/// The powers `x^1, x^2, .., x^n` of a field element.
pub open spec fn rising_powers(x: nat, n: nat) -> Seq<nat> {
    Seq::new(n, |i: int| fpow(x, (i + 1) as nat))
}

/// A vector with every entry multiplied by the same factor.
pub open spec fn scaled(factor: nat, v: Seq<nat>) -> Seq<nat> {
    Seq::new(v.len(), |i: int| fmul(factor, v[i]))
}

/// The column `j` of a matrix.
pub open spec fn column(rows: Seq<Seq<nat>>, j: int) -> Seq<nat> {
    Seq::new(rows.len(), |i: int| rows[i][j])
}

/// Whether a matrix has `m` rows of `n` entries each.
pub open spec fn has_shape<T>(rows: Seq<Seq<T>>, m: nat, n: nat) -> bool {
    rows.len() == m && forall|i: int| 0 <= i < m ==> (#[trigger] rows[i]).len() == n
}

/// A combination of all rows of a matrix is the combination of its first rows, for all of
/// them.
pub proof fn lemma_combination_is_partial(weights: Seq<nat>, rows: Seq<Seq<nat>>, n: nat)
    ensures
        combination(weights, rows, n) == partial_combination(
            weights,
            rows,
            n,
            rows.len(),
        ),
{
    assert forall|j: int| 0 <= j < n implies combination(weights, rows, n)[j]
        == partial_combination(weights, rows, n, rows.len())[j] by {
        assert(column(rows, j) =~= Seq::new(rows.len(), |i: int| rows[i][j]));
    }
    assert(combination(weights, rows, n)
        =~= partial_combination(weights, rows, n, rows.len()));
}

/// The powers `1, x, x^2, .., x^k` of a scalar.
pub fn scalar_powers(x: Scalar, k: usize) -> (v: Vec<Scalar>)
    requires
        k < usize::MAX,
    ensures
        v@.len() == k + 1,
        scalar_values(v@) == powers(x@, (k + 1) as nat),
{
    let mut v: Vec<Scalar> = Vec::new();
    let mut current = Scalar::one();
    v.push(current);
    let mut i: usize = 0;
    while i < k
        invariant
            i <= k,
            v@.len() == i + 1,
            current@ == fpow(x@, i as nat),
            forall|j: int| 0 <= j <= i ==> (#[trigger] v@[j])@ == fpow(x@, j as nat),
        decreases k - i,
    {
        current = current.mul(&x);
        v.push(current);
        i = i + 1;
    }
    assert(scalar_values(v@) =~= powers(x@, (k + 1) as nat));
    v
}

/// The entries `from, from + 1, .., to - 1` of a vector of scalars.
pub fn slice_of(v: &Vec<Scalar>, from: usize, to: usize) -> (r: Vec<Scalar>)
    requires
        from <= to <= v@.len(),
    ensures
        r@ == v@.subrange(from as int, to as int),
{
    let mut r: Vec<Scalar> = Vec::new();
    let mut i: usize = from;
    while i < to
        invariant
            from <= i <= to,
            to <= v@.len(),
            r@ == v@.subrange(from as int, i as int),
        decreases to - i,
    {
        r.push(v[i]);
        i = i + 1;
        assert(r@ =~= v@.subrange(from as int, i as int));
    }
    r
}

/// The vector of scalars in reverse order.
pub fn reversed(v: &Vec<Scalar>) -> (r: Vec<Scalar>)
    ensures
        r@ == v@.reverse(),
{
    let mut r: Vec<Scalar> = Vec::new();
    let n = v.len();
    let mut i: usize = 0;
    while i < n
        invariant
            i <= n,
            n == v@.len(),
            r@.len() == i,
            forall|j: int| 0 <= j < i ==> r@[j] == v@[n - 1 - j],
        decreases n - i,
    {
        r.push(v[n - 1 - i]);
        i = i + 1;
    }
    assert(r@ =~= v@.reverse());
    r
}

/// A vector of scalars with every entry multiplied by the same factor.
pub fn scale(factor: &Scalar, v: &Vec<Scalar>) -> (r: Vec<Scalar>)
    ensures
        scalar_values(r@) == scaled(factor@, scalar_values(v@)),
{
    let mut r: Vec<Scalar> = Vec::new();
    let mut i: usize = 0;
    while i < v.len()
        invariant
            i <= v@.len(),
            r@.len() == i,
            forall|k: int| 0 <= k < i ==> (#[trigger] r@[k])@ == fmul(factor@, v@[k]@),
        decreases v@.len() - i,
    {
        r.push(factor.mul(&v[i]));
        i = i + 1;
    }
    assert(scalar_values(r@) =~= scaled(factor@, scalar_values(v@)));
    r
}

/// A copy of the rows `from, from + 1, .., to - 1` of a matrix of scalars.
pub fn rows_of(m: &Vec<Vec<Scalar>>, from: usize, to: usize) -> (r: Vec<Vec<Scalar>>)
    requires
        from <= to <= m@.len(),
    ensures
        matrix_values(r@) == matrix_values(m@).subrange(from as int, to as int),
{
    let mut r: Vec<Vec<Scalar>> = Vec::new();
    let mut i: usize = from;
    while i < to
        invariant
            from <= i <= to,
            to <= m@.len(),
            r@.len() == i - from,
            forall|k: int| 0 <= k < i - from ==> (#[trigger] r@[k])@ == m@[from + k]@,
        decreases to - i,
    {
        r.push(copy_of(&m[i]));
        i = i + 1;
    }
    assert(matrix_values(r@) =~= matrix_values(m@).subrange(from as int, to as int));
    r
}

/// Whether a matrix of ciphertexts has `m` rows of `n` entries each.
pub fn cipher_shape_is(rows: &Vec<Vec<Ciphertext>>, m: usize, n: usize) -> (r: bool)
    ensures
        r == has_shape(ciphertext_rows(rows@), m as nat, n as nat),
{
    if rows.len() != m {
        return false;
    }
    let mut i: usize = 0;
    while i < m
        invariant
            i <= m,
            rows@.len() == m,
            forall|k: int| 0 <= k < i ==> (#[trigger] ciphertext_rows(rows@)[k]).len() == n,
        decreases m - i,
    {
        if rows[i].len() != n {
            assert(ciphertext_rows(rows@)[i as int].len() != n);
            return false;
        }
        i = i + 1;
    }
    true
}

/// A copy of a vector of scalars with one entry replaced.
pub fn with_entry(v: &Vec<Scalar>, index: usize, value: Scalar) -> (r: Vec<Scalar>)
    requires
        index < v@.len(),
    ensures
        scalar_values(r@) == scalar_values(v@).update(index as int, value@),
{
    let mut r: Vec<Scalar> = Vec::new();
    let mut i: usize = 0;
    while i < v.len()
        invariant
            i <= v@.len(),
            r@.len() == i,
            forall|k: int|
                0 <= k < i ==> (#[trigger] r@[k]) == (if k == index {
                    value
                } else {
                    v@[k]
                }),
        decreases v@.len() - i,
    {
        if i == index {
            r.push(value);
        } else {
            r.push(v[i]);
        }
        i = i + 1;
    }
    assert(scalar_values(r@) =~= scalar_values(v@).update(index as int, value@));
    r
}

/// A copy of a vector of scalars.
pub fn copy_of(v: &Vec<Scalar>) -> (r: Vec<Scalar>)
    ensures
        r@ == v@,
{
    let r = slice_of(v, 0, v.len());
    assert(v@.subrange(0, v@.len() as int) =~= v@);
    r
}

/// The combination of the rows of a matrix with the given weights: entry `j` of the result is
/// the sum of the `weights[i] * rows[i][j]`.
pub open spec fn combination(weights: Seq<nat>, rows: Seq<Seq<nat>>, n: nat) -> Seq<nat> {
    Seq::new(n, |j: int| weighted_sum(weights, column(rows, j), rows.len()))
}

/// The combination of the rows of a matrix with the given weights.
pub fn linear_combination(weights: &Vec<Scalar>, rows: &Vec<Vec<Scalar>>, n: usize) -> (r: Vec<
    Scalar,
>)
    requires
        weights@.len() == rows@.len(),
        has_shape(matrix_values(rows@), rows@.len() as nat, n as nat),
    ensures
        scalar_values(r@) == combination(
            scalar_values(weights@),
            matrix_values(rows@),
            n as nat,
        ),
{
    let mut r: Vec<Scalar> = Vec::new();
    let mut j: usize = 0;
    while j < n
        invariant
            j <= n,
            weights@.len() == rows@.len(),
            has_shape(matrix_values(rows@), rows@.len() as nat, n as nat),
            r@.len() == j,
            forall|c: int|
                0 <= c < j ==> (#[trigger] r@[c])@ == weighted_sum(
                    scalar_values(weights@),
                    column(matrix_values(rows@), c),
                    rows@.len(),
                ),
        decreases n - j,
    {
        let mut acc = Scalar::zero();
        let mut i: usize = 0;
        while i < rows.len()
            invariant
                i <= rows@.len(),
                j < n,
                weights@.len() == rows@.len(),
                has_shape(matrix_values(rows@), rows@.len() as nat, n as nat),
                acc@ == weighted_sum(
                    scalar_values(weights@),
                    column(matrix_values(rows@), j as int),
                    i as nat,
                ),
            decreases rows@.len() - i,
        {
            assert(matrix_values(rows@)[i as int].len() == n);
            let term = weights[i].mul(&rows[i][j]);
            acc = acc.add(&term);
            i = i + 1;
        }
        r.push(acc);
        j = j + 1;
    }
    assert(scalar_values(r@) =~= combination(
        scalar_values(weights@),
        matrix_values(rows@),
        n as nat,
    ));
    r
}

/// Whether a matrix of scalars has `m` rows of `n` entries each.
pub fn shape_is(rows: &Vec<Vec<Scalar>>, m: usize, n: usize) -> (r: bool)
    ensures
        r == has_shape(matrix_values(rows@), m as nat, n as nat),
{
    if rows.len() != m {
        return false;
    }
    let mut i: usize = 0;
    while i < m
        invariant
            i <= m,
            rows@.len() == m,
            forall|k: int| 0 <= k < i ==> (#[trigger] matrix_values(rows@)[k]).len() == n,
        decreases m - i,
    {
        if rows[i].len() != n {
            assert(matrix_values(rows@)[i as int].len() != n);
            return false;
        }
        i = i + 1;
    }
    true
}

} // verus!
