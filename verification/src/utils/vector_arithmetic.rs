//! Arithmetic on vectors of scalars.
use crate::error::{CryptoError, ErrorModel};
use crate::field::{fmul, scalar_values, weighted_sum, Scalar};
use vstd::prelude::*;

verus! {

/// The entry-wise product of two vectors of the same length.
pub open spec fn entrywise_product(u: Seq<nat>, v: Seq<nat>) -> Seq<nat> {
    Seq::new(u.len(), |i: int| fmul(u[i], v[i]))
}

/// The rows of the `m` by `n` matrix that a vector of `m * n` entries holds row by row.
pub open spec fn rows<T>(v: Seq<T>, m: nat, n: nat) -> Seq<Seq<T>> {
    Seq::new(m, |i: int| v.subrange(i * n, i * n + n))
}

/// The inner product of two vectors of scalars; the vectors must have the same length.
pub fn dot_product(scalars: &Vec<Scalar>, items: &Vec<Scalar>) -> (r: Result<Scalar, CryptoError>)
    ensures
        match r {
            Ok(p) => scalars@.len() == items@.len() && p@ == weighted_sum(
                scalar_values(scalars@),
                scalar_values(items@),
                scalars@.len(),
            ),
            Err(e) => scalars@.len() != items@.len() && e@ == ErrorModel::DotProductLength(
                scalars@.len(),
                items@.len(),
            ),
        },
{
    if scalars.len() != items.len() {
        return Err(CryptoError::DotProductLengthError(scalars.len(), items.len()));
    }
    let mut acc = Scalar::zero();
    let mut i: usize = 0;
    while i < scalars.len()
        invariant
            i <= scalars@.len(),
            scalars@.len() == items@.len(),
            acc@ == weighted_sum(scalar_values(scalars@), scalar_values(items@), i as nat),
        decreases scalars@.len() - i,
    {
        let term = scalars[i].mul(&items[i]);
        acc = acc.add(&term);
        i = i + 1;
    }
    Ok(acc)
}

/// The entry-wise product of two vectors of scalars; the vectors must have the same length.
pub fn hadamard_product(left: &Vec<Scalar>, right: &Vec<Scalar>) -> (r: Result<
    Vec<Scalar>,
    CryptoError,
>)
    ensures
        match r {
            Ok(p) => left@.len() == right@.len() && scalar_values(p@) == entrywise_product(
                scalar_values(left@),
                scalar_values(right@),
            ),
            Err(e) => left@.len() != right@.len() && e@ == ErrorModel::HadamardProductLength(
                left@.len(),
                right@.len(),
            ),
        },
{
    if left.len() != right.len() {
        return Err(CryptoError::HadamardProductLengthError(left.len(), right.len()));
    }
    let mut out: Vec<Scalar> = Vec::new();
    let mut i: usize = 0;
    while i < left.len()
        invariant
            i <= left@.len(),
            left@.len() == right@.len(),
            out@.len() == i,
            forall|j: int| 0 <= j < i ==> (#[trigger] out@[j])@ == fmul(left@[j]@, right@[j]@),
        decreases left@.len() - i,
    {
        out.push(left[i].mul(&right[i]));
        i = i + 1;
    }
    assert(scalar_values(out@) =~= entrywise_product(
        scalar_values(left@),
        scalar_values(right@),
    ));
    Ok(out)
}

/// Casts a vector of `m * n` entries to the `m` by `n` matrix that it holds row by row.
pub fn reshape<T: Copy>(v: &Vec<T>, m: usize, n: usize) -> (r: Result<Vec<Vec<T>>, CryptoError>)
    ensures
        match r {
            Ok(matrix) => m * n == v@.len() && matrix@.len() == m && forall|i: int|
                0 <= i < m ==> (#[trigger] matrix@[i])@ == v@.subrange(i * n, i * n + n),
            Err(e) => m * n != v@.len() && e@ == ErrorModel::VectorCasting(
                v@.len(),
                m as nat,
                n as nat,
            ),
        },
{
    proof {
        assert((m as int) * (n as int) <= u128::MAX) by (nonlinear_arith)
            requires
                0 <= m <= u64::MAX,
                0 <= n <= u64::MAX,
        ;
    }
    let size: u128 = (m as u128) * (n as u128);
    let length: usize = v.len();
    if size != length as u128 {
        return Err(CryptoError::VectorCastingError(v.len(), m, n));
    }
    let mut matrix: Vec<Vec<T>> = Vec::new();
    let mut i: usize = 0;
    while i < m
        invariant
            i <= m,
            m * n == v@.len(),
            v@.len() == length,
            matrix@.len() == i,
            forall|k: int| 0 <= k < i ==> (#[trigger] matrix@[k])@ == v@.subrange(k * n, k * n + n),
        decreases m - i,
    {
        proof {
            assert(0 <= i * n && i * n + n <= m * n) by (nonlinear_arith)
                requires
                    0 <= i < m,
                    0 <= n,
            ;
        }
        let start: usize = i * n;
        let mut row: Vec<T> = Vec::new();
        let mut j: usize = 0;
        while j < n
            invariant
                j <= n,
                start == i * n,
                start + n <= v@.len(),
                v@.len() == length,
                row@ == v@.subrange(start as int, start + j),
            decreases n - j,
        {
            row.push(v[start + j]);
            j = j + 1;
            assert(row@ =~= v@.subrange(start as int, start + j));
        }
        matrix.push(row);
        i = i + 1;
    }
    Ok(matrix)
}

} // verus!
