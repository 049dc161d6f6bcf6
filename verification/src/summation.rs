//! Finite sums and products of integers, and how they rearrange.
use crate::field::{congruent, lemma_congruent_combination, linear};
use crate::utils::permutation::is_permutation;
use vstd::prelude::*;
use vstd::set_lib::{lemma_int_range, lemma_subset_equality, set_int_range};

verus! {

/// The sum of `f(0), .., f(n - 1)`.
pub open spec fn sum(f: spec_fn(int) -> int, n: nat) -> int
    decreases n,
{
    if n == 0 {
        0
    } else {
        sum(f, (n - 1) as nat) + f(n - 1)
    }
}

/// The sum of `f(i, 0), .., f(i, n - 1)`.
pub open spec fn sum_row(f: spec_fn(int, int) -> int, i: int, n: nat) -> int
    decreases n,
{
    if n == 0 {
        0
    } else {
        sum_row(f, i, (n - 1) as nat) + f(i, n - 1)
    }
}

/// The sum of `f(0, j), .., f(m - 1, j)`.
pub open spec fn sum_column(f: spec_fn(int, int) -> int, j: int, m: nat) -> int
    decreases m,
{
    if m == 0 {
        0
    } else {
        sum_column(f, j, (m - 1) as nat) + f(m - 1, j)
    }
}

/// Sums of equal terms are equal.
pub proof fn lemma_sum_equal(f: spec_fn(int) -> int, g: spec_fn(int) -> int, n: nat)
    requires
        forall|i: int| 0 <= i < n ==> #[trigger] f(i) == g(i),
    ensures
        sum(f, n) == sum(g, n),
    decreases n,
{
    if n > 0 {
        lemma_sum_equal(f, g, (n - 1) as nat);
    }
}

/// Sums of terms that stand for the same field elements stand for the same field element.
pub proof fn lemma_sum_congruent(f: spec_fn(int) -> int, g: spec_fn(int) -> int, n: nat)
    requires
        forall|i: int| 0 <= i < n ==> congruent(#[trigger] f(i), g(i)),
    ensures
        congruent(sum(f, n), sum(g, n)),
    decreases n,
{
    if n > 0 {
        lemma_sum_congruent(f, g, (n - 1) as nat);
        assert(congruent(f(n - 1), g(n - 1)));
        lemma_congruent_combination(
            1,
            sum(f, (n - 1) as nat),
            f(n - 1),
            1,
            sum(g, (n - 1) as nat),
            g(n - 1),
        );
    }
}

/// A common factor can be taken out of a sum.
pub proof fn lemma_sum_scaled(c: int, f: spec_fn(int) -> int, g: spec_fn(int) -> int, n: nat)
    requires
        forall|i: int| 0 <= i < n ==> #[trigger] g(i) == c * f(i),
    ensures
        sum(g, n) == c * sum(f, n),
    decreases n,
{
    if n > 0 {
        lemma_sum_scaled(c, f, g, (n - 1) as nat);
        assert(g(n - 1) == c * f(n - 1));
        assert(c * sum(f, (n - 1) as nat) + c * f(n - 1) == c * (sum(f, (n - 1) as nat) + f(n - 1)))
            by (nonlinear_arith);
    } else {
        assert(c * 0 == 0);
    }
}

/// The sum of sums of terms is the sum of the sums.
pub proof fn lemma_sum_added(
    f: spec_fn(int) -> int,
    g: spec_fn(int) -> int,
    h: spec_fn(int) -> int,
    n: nat,
)
    requires
        forall|i: int| 0 <= i < n ==> #[trigger] h(i) == f(i) + g(i),
    ensures
        sum(h, n) == sum(f, n) + sum(g, n),
    decreases n,
{
    if n > 0 {
        lemma_sum_added(f, g, h, (n - 1) as nat);
        assert(h(n - 1) == f(n - 1) + g(n - 1));
    }
}

/// The sum of the products of the entries of two vectors is the sum of its terms.
pub proof fn lemma_linear_is_sum(u: Seq<nat>, v: Seq<nat>, p: spec_fn(int) -> int, n: nat)
    requires
        forall|i: int| 0 <= i < n ==> #[trigger] p(i) == (u[i] as int) * (v[i] as int),
    ensures
        linear(u, v, n) == sum(p, n),
    decreases n,
{
    if n > 0 {
        lemma_linear_is_sum(u, v, p, (n - 1) as nat);
        assert(p(n - 1) == (u[n - 1] as int) * (v[n - 1] as int));
    }
}

/// A sum of zeros is zero.
pub proof fn lemma_sum_of_zeros(f: spec_fn(int) -> int, n: nat)
    requires
        forall|i: int| 0 <= i < n ==> #[trigger] f(i) == 0,
    ensures
        sum(f, n) == 0,
    decreases n,
{
    if n > 0 {
        lemma_sum_of_zeros(f, (n - 1) as nat);
        assert(f(n - 1) == 0);
    }
}

/// The sum of a row of a grid is the sum of its terms.
pub proof fn lemma_sum_row(f: spec_fn(int, int) -> int, i: int, g: spec_fn(int) -> int, n: nat)
    requires
        forall|j: int| 0 <= j < n ==> #[trigger] g(j) == f(i, j),
    ensures
        sum_row(f, i, n) == sum(g, n),
    decreases n,
{
    if n > 0 {
        lemma_sum_row(f, i, g, (n - 1) as nat);
        assert(g(n - 1) == f(i, n - 1));
    }
}

/// The sum of a column of a grid is the sum of its terms.
pub proof fn lemma_sum_column(f: spec_fn(int, int) -> int, j: int, g: spec_fn(int) -> int, m: nat)
    requires
        forall|i: int| 0 <= i < m ==> #[trigger] g(i) == f(i, j),
    ensures
        sum_column(f, j, m) == sum(g, m),
    decreases m,
{
    if m > 0 {
        lemma_sum_column(f, j, g, (m - 1) as nat);
        assert(g(m - 1) == f(m - 1, j));
    }
}

/// The terms of a grid can be added up by rows or by columns.
pub proof fn lemma_sum_exchange(
    f: spec_fn(int, int) -> int,
    rows: spec_fn(int) -> int,
    columns: spec_fn(int) -> int,
    m: nat,
    n: nat,
)
    requires
        forall|i: int| 0 <= i < m ==> #[trigger] rows(i) == sum_row(f, i, n),
        forall|j: int| 0 <= j < n ==> #[trigger] columns(j) == sum_column(f, j, m),
    ensures
        sum(rows, m) == sum(columns, n),
    decreases m,
{
    if m == 0 {
        lemma_sum_of_zeros(columns, n);
    } else {
        let k = (m - 1) as nat;
        let fewer = |j: int| sum_column(f, j, k);
        let last = |j: int| f(k as int, j);
        lemma_sum_exchange(f, rows, fewer, k, n);
        assert forall|j: int| 0 <= j < n implies #[trigger] columns(j) == fewer(j) + last(j) by {
            assert(columns(j) == sum_column(f, j, m));
        }
        lemma_sum_added(fewer, last, columns, n);
        lemma_sum_row(f, k as int, last, n);
        assert(rows(k as int) == sum_row(f, k as int, n));
    }
}

/// A sum over a window that runs backwards: when `w(k)` is `h(lo + m - k)` for `k` from `lo`
/// to `lo + m` and zero elsewhere, the sum of the `w(k)` is the sum of `h(0), .., h(m)`.
pub proof fn lemma_sum_window(
    h: spec_fn(int) -> int,
    w: spec_fn(int) -> int,
    lo: nat,
    m: nat,
    total: nat,
)
    requires
        lo + m < total,
        forall|k: int|
            0 <= k < total ==> #[trigger] w(k) == (if lo <= k <= lo + m {
                h(lo + m - k)
            } else {
                0
            }),
    ensures
        sum(w, total) == sum(h, m + 1),
{
    lemma_sum_window_upto(h, w, lo, m, total, total);
}

/// The sum over the first `upto` terms of a window that runs backwards.
proof fn lemma_sum_window_upto(
    h: spec_fn(int) -> int,
    w: spec_fn(int) -> int,
    lo: nat,
    m: nat,
    total: nat,
    upto: nat,
)
    requires
        lo + m < total,
        upto <= total,
        forall|k: int|
            0 <= k < total ==> #[trigger] w(k) == (if lo <= k <= lo + m {
                h(lo + m - k)
            } else {
                0
            }),
    ensures
        upto <= lo ==> sum(w, upto) == 0,
        lo < upto <= lo + m + 1 ==> sum(w, upto) == sum(h, m + 1) - sum(
            h,
            (lo + m + 1 - upto) as nat,
        ),
        upto > lo + m + 1 ==> sum(w, upto) == sum(h, m + 1),
    decreases upto,
{
    if upto > 0 {
        let k = (upto - 1) as nat;
        lemma_sum_window_upto(h, w, lo, m, total, k);
        assert(w(k as int) == (if lo <= k <= lo + m {
            h(lo + m - k)
        } else {
            0
        }));
        if lo < upto && upto <= lo + m + 1 {
            assert(sum(h, (lo + m + 1 - k) as nat) == sum(h, (lo + m - k) as nat) + h(lo + m - k));
        }
    }
}

/// A sum over a window that runs forwards: when `w(k)` is `h(k - lo)` for `k` from `lo` to
/// `lo + m` and zero elsewhere, the sum of the `w(k)` is the sum of `h(0), .., h(m)`.
pub proof fn lemma_sum_forward_window(
    h: spec_fn(int) -> int,
    w: spec_fn(int) -> int,
    lo: nat,
    m: nat,
    total: nat,
)
    requires
        lo + m < total,
        forall|k: int|
            0 <= k < total ==> #[trigger] w(k) == (if lo <= k <= lo + m {
                h(k - lo)
            } else {
                0
            }),
    ensures
        sum(w, total) == sum(h, m + 1),
{
    lemma_sum_forward_window_upto(h, w, lo, m, total, total);
}

/// The sum over the first `upto` terms of a window that runs forwards.
proof fn lemma_sum_forward_window_upto(
    h: spec_fn(int) -> int,
    w: spec_fn(int) -> int,
    lo: nat,
    m: nat,
    total: nat,
    upto: nat,
)
    requires
        lo + m < total,
        upto <= total,
        forall|k: int|
            0 <= k < total ==> #[trigger] w(k) == (if lo <= k <= lo + m {
                h(k - lo)
            } else {
                0
            }),
    ensures
        upto <= lo ==> sum(w, upto) == 0,
        lo < upto <= lo + m + 1 ==> sum(w, upto) == sum(h, (upto - lo) as nat),
        upto > lo + m + 1 ==> sum(w, upto) == sum(h, m + 1),
    decreases upto,
{
    if upto > 0 {
        let k = (upto - 1) as nat;
        lemma_sum_forward_window_upto(h, w, lo, m, total, k);
        assert(w(k as int) == (if lo <= k <= lo + m {
            h(k - lo)
        } else {
            0
        }));
        if lo < upto && upto <= lo + m + 1 {
            assert(sum(h, (upto - lo) as nat) == sum(h, (k - lo) as nat) + h(k - lo));
        }
    }
}

/// A sum can be split in two.
pub proof fn lemma_sum_split(f: spec_fn(int) -> int, tail: spec_fn(int) -> int, a: nat, b: nat)
    requires
        forall|l: int| 0 <= l < b ==> #[trigger] tail(l) == f(a + l),
    ensures
        sum(f, a + b) == sum(f, a) + sum(tail, b),
    decreases b,
{
    if b > 0 {
        lemma_sum_split(f, tail, a, (b - 1) as nat);
        assert(tail(b - 1) == f(a + (b - 1)));
        assert(sum(f, a + b) == sum(f, (a + b - 1) as nat) + f(a + b - 1));
    }
}

/// The terms of a sum of `m * n` terms can be added up in `m` groups of `n`.
pub proof fn lemma_sum_flatten(f: spec_fn(int) -> int, by_row: spec_fn(int) -> int, m: nat, n: nat)
    requires
        forall|r: int|
            0 <= r < m ==> #[trigger] by_row(r) == sum_row(|r: int, l: int| f(r * n + l), r, n),
    ensures
        sum(f, m * n) == sum(by_row, m),
    decreases m,
{
    if m == 0 {
        assert(0 * n == 0);
    } else {
        let k = (m - 1) as nat;
        let grid = |r: int, l: int| f(r * n + l);
        let tail = |l: int| f(k * n + l);
        lemma_sum_flatten(f, by_row, k, n);
        assert(m * n == k * n + n) by (nonlinear_arith)
            requires
                m == k + 1,
        ;
        lemma_sum_split(f, tail, k * n, n);
        lemma_sum_row(grid, k as int, tail, n);
        assert(by_row(k as int) == sum_row(grid, k as int, n));
    }
}

/// The values that a mapping takes on the first `k` indices.
pub open spec fn image(pi: Seq<nat>, k: nat) -> Set<int>
    decreases k,
{
    if k == 0 {
        Set::empty()
    } else {
        image(pi, (k - 1) as nat).insert(pi[k - 1] as int)
    }
}

/// The values that a permutation takes on the first `k` indices are `k` different indices.
pub proof fn lemma_image(pi: Seq<nat>, k: nat)
    requires
        is_permutation(pi),
        k <= pi.len(),
    ensures
        image(pi, k).finite(),
        image(pi, k).len() == k,
        forall|i: int| 0 <= i < k ==> image(pi, k).contains(#[trigger] pi[i] as int),
        forall|j: int|
            image(pi, k).contains(j) ==> 0 <= j < pi.len() && exists|i: int|
                0 <= i < k && pi[i] == j,
    decreases k,
{
    if k > 0 {
        let p = (k - 1) as nat;
        lemma_image(pi, p);
        let before = image(pi, p);
        if before.contains(pi[p as int] as int) {
            let i = choose|i: int| 0 <= i < p && pi[i] == pi[p as int];
            assert(pi[i] != pi[p as int]);
        }
        assert(pi[p as int] < pi.len());
        assert forall|j: int| image(pi, k).contains(j) implies 0 <= j < pi.len() && exists|i: int|
            0 <= i < k && pi[i] == j by {
            if j == pi[p as int] {
                assert(0 <= p < k && pi[p as int] == j);
            } else {
                let i = choose|i: int| 0 <= i < p && pi[i] == j;
                assert(0 <= i < k && pi[i] == j);
            }
        }
    }
}

/// A permutation takes every index as a value.
pub proof fn lemma_image_is_full(pi: Seq<nat>)
    requires
        is_permutation(pi),
    ensures
        forall|j: int| 0 <= j < pi.len() ==> image(pi, pi.len()).contains(j),
{
    let all = set_int_range(0, pi.len() as int);
    lemma_image(pi, pi.len());
    lemma_int_range(0, pi.len() as int);
    assert(image(pi, pi.len()).subset_of(all));
    lemma_subset_equality(image(pi, pi.len()), all);
    assert forall|j: int| 0 <= j < pi.len() implies image(pi, pi.len()).contains(j) by {
        assert(all.contains(j));
    }
}

/// The sum of the `f(j)` over the indices `j` below `upto` that a set holds.
pub open spec fn masked_sum(f: spec_fn(int) -> int, s: Set<int>, upto: nat) -> int
    decreases upto,
{
    if upto == 0 {
        0
    } else {
        masked_sum(f, s, (upto - 1) as nat) + (if s.contains(upto - 1) {
            f(upto - 1)
        } else {
            0
        })
    }
}

/// One more index in the set adds its term to the sum.
pub proof fn lemma_masked_sum_insert(f: spec_fn(int) -> int, s: Set<int>, c: int, upto: nat)
    requires
        !s.contains(c),
    ensures
        masked_sum(f, s.insert(c), upto) == masked_sum(f, s, upto) + (if 0 <= c < upto {
            f(c)
        } else {
            0
        }),
    decreases upto,
{
    if upto > 0 {
        lemma_masked_sum_insert(f, s, c, (upto - 1) as nat);
    }
}

/// The sum over a set that holds every index is the sum of all terms.
pub proof fn lemma_masked_sum_full(f: spec_fn(int) -> int, s: Set<int>, upto: nat)
    requires
        forall|j: int| 0 <= j < upto ==> s.contains(j),
    ensures
        masked_sum(f, s, upto) == sum(f, upto),
    decreases upto,
{
    if upto > 0 {
        lemma_masked_sum_full(f, s, (upto - 1) as nat);
    }
}

/// The sum over the empty set is zero.
pub proof fn lemma_masked_sum_empty(f: spec_fn(int) -> int, upto: nat)
    ensures
        masked_sum(f, Set::empty(), upto) == 0,
    decreases upto,
{
    if upto > 0 {
        lemma_masked_sum_empty(f, (upto - 1) as nat);
    }
}

/// A sum does not change when its terms are permuted.
pub proof fn lemma_sum_permuted(f: spec_fn(int) -> int, pi: Seq<nat>, g: spec_fn(int) -> int)
    requires
        is_permutation(pi),
        forall|i: int| 0 <= i < pi.len() ==> #[trigger] g(i) == f(pi[i] as int),
    ensures
        sum(g, pi.len()) == sum(f, pi.len()),
{
    lemma_sum_permuted_upto(f, pi, g, pi.len());
    lemma_image_is_full(pi);
    lemma_masked_sum_full(f, image(pi, pi.len()), pi.len());
}

/// The sum of the first `k` permuted terms is the sum over the values that the permutation
/// takes on the first `k` indices.
proof fn lemma_sum_permuted_upto(
    f: spec_fn(int) -> int,
    pi: Seq<nat>,
    g: spec_fn(int) -> int,
    k: nat,
)
    requires
        is_permutation(pi),
        k <= pi.len(),
        forall|i: int| 0 <= i < pi.len() ==> #[trigger] g(i) == f(pi[i] as int),
    ensures
        sum(g, k) == masked_sum(f, image(pi, k), pi.len()),
    decreases k,
{
    if k == 0 {
        lemma_masked_sum_empty(f, pi.len());
    } else {
        let p = (k - 1) as nat;
        lemma_sum_permuted_upto(f, pi, g, p);
        lemma_image(pi, p);
        if image(pi, p).contains(pi[p as int] as int) {
            let i = choose|i: int| 0 <= i < p && pi[i] == pi[p as int];
            assert(pi[i] != pi[p as int]);
        }
        assert(pi[p as int] < pi.len());
        lemma_masked_sum_insert(f, image(pi, p), pi[p as int] as int, pi.len());
        assert(g(p as int) == f(pi[p as int] as int));
    }
}

/// The product of `f(0), .., f(n - 1)`.
pub open spec fn product(f: spec_fn(int) -> int, n: nat) -> int
    decreases n,
{
    if n == 0 {
        1
    } else {
        product(f, (n - 1) as nat) * f(n - 1)
    }
}

/// The product of `f(i, 0), .., f(i, n - 1)`.
pub open spec fn product_row(f: spec_fn(int, int) -> int, i: int, n: nat) -> int
    decreases n,
{
    if n == 0 {
        1
    } else {
        product_row(f, i, (n - 1) as nat) * f(i, n - 1)
    }
}

/// The product of `f(0, j), .., f(m - 1, j)`.
pub open spec fn product_column(f: spec_fn(int, int) -> int, j: int, m: nat) -> int
    decreases m,
{
    if m == 0 {
        1
    } else {
        product_column(f, j, (m - 1) as nat) * f(m - 1, j)
    }
}

/// Products of equal factors are equal.
pub proof fn lemma_product_equal(f: spec_fn(int) -> int, g: spec_fn(int) -> int, n: nat)
    requires
        forall|i: int| 0 <= i < n ==> #[trigger] f(i) == g(i),
    ensures
        product(f, n) == product(g, n),
    decreases n,
{
    if n > 0 {
        lemma_product_equal(f, g, (n - 1) as nat);
    }
}

/// Products of factors that stand for the same field elements stand for the same field
/// element.
pub proof fn lemma_product_congruent(f: spec_fn(int) -> int, g: spec_fn(int) -> int, n: nat)
    requires
        forall|i: int| 0 <= i < n ==> congruent(#[trigger] f(i), g(i)),
    ensures
        congruent(product(f, n), product(g, n)),
    decreases n,
{
    if n > 0 {
        lemma_product_congruent(f, g, (n - 1) as nat);
        assert(congruent(f(n - 1), g(n - 1)));
        lemma_congruent_combination(
            product(f, (n - 1) as nat),
            f(n - 1),
            0,
            product(g, (n - 1) as nat),
            g(n - 1),
            0,
        );
    }
}

/// The product of products of factors is the product of the products.
pub proof fn lemma_product_multiplied(
    f: spec_fn(int) -> int,
    g: spec_fn(int) -> int,
    h: spec_fn(int) -> int,
    n: nat,
)
    requires
        forall|i: int| 0 <= i < n ==> #[trigger] h(i) == f(i) * g(i),
    ensures
        product(h, n) == product(f, n) * product(g, n),
    decreases n,
{
    if n > 0 {
        let k = (n - 1) as nat;
        lemma_product_multiplied(f, g, h, k);
        assert(h(k as int) == f(k as int) * g(k as int));
        let (pf, pg, a, b) = (product(f, k), product(g, k), f(k as int), g(k as int));
        assert((pf * pg) * (a * b) == (pf * a) * (pg * b)) by (nonlinear_arith);
    }
}

/// A product of ones is one.
pub proof fn lemma_product_of_ones(f: spec_fn(int) -> int, n: nat)
    requires
        forall|i: int| 0 <= i < n ==> #[trigger] f(i) == 1,
    ensures
        product(f, n) == 1,
    decreases n,
{
    if n > 0 {
        lemma_product_of_ones(f, (n - 1) as nat);
        assert(f(n - 1) == 1);
    }
}

/// The product of a row of a grid is the product of its factors.
pub proof fn lemma_product_row(f: spec_fn(int, int) -> int, i: int, g: spec_fn(int) -> int, n: nat)
    requires
        forall|j: int| 0 <= j < n ==> #[trigger] g(j) == f(i, j),
    ensures
        product_row(f, i, n) == product(g, n),
    decreases n,
{
    if n > 0 {
        lemma_product_row(f, i, g, (n - 1) as nat);
        assert(g(n - 1) == f(i, n - 1));
    }
}

/// The product of a column of a grid is the product of its factors.
pub proof fn lemma_product_column(
    f: spec_fn(int, int) -> int,
    j: int,
    g: spec_fn(int) -> int,
    m: nat,
)
    requires
        forall|i: int| 0 <= i < m ==> #[trigger] g(i) == f(i, j),
    ensures
        product_column(f, j, m) == product(g, m),
    decreases m,
{
    if m > 0 {
        lemma_product_column(f, j, g, (m - 1) as nat);
        assert(g(m - 1) == f(m - 1, j));
    }
}

/// The factors of a grid can be multiplied by rows or by columns.
pub proof fn lemma_product_exchange(
    f: spec_fn(int, int) -> int,
    rows: spec_fn(int) -> int,
    columns: spec_fn(int) -> int,
    m: nat,
    n: nat,
)
    requires
        forall|i: int| 0 <= i < m ==> #[trigger] rows(i) == product_row(f, i, n),
        forall|j: int| 0 <= j < n ==> #[trigger] columns(j) == product_column(f, j, m),
    ensures
        product(rows, m) == product(columns, n),
    decreases m,
{
    if m == 0 {
        lemma_product_of_ones(columns, n);
    } else {
        let k = (m - 1) as nat;
        let fewer = |j: int| product_column(f, j, k);
        let last = |j: int| f(k as int, j);
        lemma_product_exchange(f, rows, fewer, k, n);
        assert forall|j: int| 0 <= j < n implies #[trigger] columns(j) == fewer(j) * last(j) by {
            assert(columns(j) == product_column(f, j, m));
        }
        lemma_product_multiplied(fewer, last, columns, n);
        lemma_product_row(f, k as int, last, n);
        assert(rows(k as int) == product_row(f, k as int, n));
    }
}

/// A product can be split in two.
pub proof fn lemma_product_split(f: spec_fn(int) -> int, tail: spec_fn(int) -> int, a: nat, b: nat)
    requires
        forall|l: int| 0 <= l < b ==> #[trigger] tail(l) == f(a + l),
    ensures
        product(f, a + b) == product(f, a) * product(tail, b),
    decreases b,
{
    if b > 0 {
        let k = (b - 1) as nat;
        lemma_product_split(f, tail, a, k);
        assert(tail(k as int) == f(a as int + k as int));
        assert(product(f, a + b) == product(f, (a + b - 1) as nat) * f(a + b - 1));
        let (pa, pt, last) = (product(f, a), product(tail, k), f(a as int + k as int));
        assert((pa * pt) * last == pa * (pt * last)) by (nonlinear_arith);
    } else {
        assert(product(f, a) * 1 == product(f, a));
    }
}

/// The factors of a product of `m * n` factors can be multiplied in `m` groups of `n`.
pub proof fn lemma_product_flatten(
    f: spec_fn(int) -> int,
    by_row: spec_fn(int) -> int,
    m: nat,
    n: nat,
)
    requires
        forall|r: int|
            0 <= r < m ==> #[trigger] by_row(r) == product_row(
                |r: int, l: int| f(r * n + l),
                r,
                n,
            ),
    ensures
        product(f, m * n) == product(by_row, m),
    decreases m,
{
    if m == 0 {
        assert(0 * n == 0);
    } else {
        let k = (m - 1) as nat;
        let grid = |r: int, l: int| f(r * n + l);
        let tail = |l: int| f(k * n + l);
        lemma_product_flatten(f, by_row, k, n);
        assert(m * n == k * n + n) by (nonlinear_arith)
            requires
                m == k + 1,
        ;
        lemma_product_split(f, tail, k * n, n);
        lemma_product_row(grid, k as int, tail, n);
        assert(by_row(k as int) == product_row(grid, k as int, n));
    }
}

/// The product of the `f(j)` over the indices `j` below `upto` that a set holds.
pub open spec fn masked_product(f: spec_fn(int) -> int, s: Set<int>, upto: nat) -> int
    decreases upto,
{
    if upto == 0 {
        1
    } else {
        masked_product(f, s, (upto - 1) as nat) * (if s.contains(upto - 1) {
            f(upto - 1)
        } else {
            1
        })
    }
}

/// One more index in the set multiplies the product with its factor.
pub proof fn lemma_masked_product_insert(f: spec_fn(int) -> int, s: Set<int>, c: int, upto: nat)
    requires
        !s.contains(c),
    ensures
        masked_product(f, s.insert(c), upto) == masked_product(f, s, upto) * (if 0 <= c < upto {
            f(c)
        } else {
            1
        }),
    decreases upto,
{
    if upto > 0 {
        let k = (upto - 1) as nat;
        lemma_masked_product_insert(f, s, c, k);
        let before = masked_product(f, s, k);
        if c == k {
            assert(before * 1 * f(c) == before * f(c)) by (nonlinear_arith);
        } else if 0 <= c < k {
            let factor = if s.contains(k as int) {
                f(k as int)
            } else {
                1
            };
            assert((before * f(c)) * factor == (before * factor) * f(c)) by (nonlinear_arith);
        } else {
            assert(before * 1 == before);
            let factor = if s.contains(k as int) {
                f(k as int)
            } else {
                1
            };
            assert((before * factor) * 1 == before * factor) by (nonlinear_arith);
        }
    } else {
        assert(1 * 1 == 1);
    }
}

/// The product over a set that holds every index is the product of all factors.
pub proof fn lemma_masked_product_full(f: spec_fn(int) -> int, s: Set<int>, upto: nat)
    requires
        forall|j: int| 0 <= j < upto ==> s.contains(j),
    ensures
        masked_product(f, s, upto) == product(f, upto),
    decreases upto,
{
    if upto > 0 {
        lemma_masked_product_full(f, s, (upto - 1) as nat);
    }
}

/// The product over the empty set is one.
pub proof fn lemma_masked_product_empty(f: spec_fn(int) -> int, upto: nat)
    ensures
        masked_product(f, Set::empty(), upto) == 1,
    decreases upto,
{
    if upto > 0 {
        lemma_masked_product_empty(f, (upto - 1) as nat);
    }
}

/// A product does not change when its factors are permuted.
pub proof fn lemma_product_permuted(f: spec_fn(int) -> int, pi: Seq<nat>, g: spec_fn(int) -> int)
    requires
        is_permutation(pi),
        forall|i: int| 0 <= i < pi.len() ==> #[trigger] g(i) == f(pi[i] as int),
    ensures
        product(g, pi.len()) == product(f, pi.len()),
{
    lemma_product_permuted_upto(f, pi, g, pi.len());
    lemma_image_is_full(pi);
    lemma_masked_product_full(f, image(pi, pi.len()), pi.len());
}

/// The product of the first `k` permuted factors is the product over the values that the
/// permutation takes on the first `k` indices.
proof fn lemma_product_permuted_upto(
    f: spec_fn(int) -> int,
    pi: Seq<nat>,
    g: spec_fn(int) -> int,
    k: nat,
)
    requires
        is_permutation(pi),
        k <= pi.len(),
        forall|i: int| 0 <= i < pi.len() ==> #[trigger] g(i) == f(pi[i] as int),
    ensures
        product(g, k) == masked_product(f, image(pi, k), pi.len()),
    decreases k,
{
    if k == 0 {
        lemma_masked_product_empty(f, pi.len());
    } else {
        let p = (k - 1) as nat;
        lemma_product_permuted_upto(f, pi, g, p);
        lemma_image(pi, p);
        if image(pi, p).contains(pi[p as int] as int) {
            let i = choose|i: int| 0 <= i < p && pi[i] == pi[p as int];
            assert(pi[i] != pi[p as int]);
        }
        assert(pi[p as int] < pi.len());
        lemma_masked_product_insert(f, image(pi, p), pi[p as int] as int, pi.len());
        assert(g(p as int) == f(pi[p as int] as int));
    }
}

} // verus!
