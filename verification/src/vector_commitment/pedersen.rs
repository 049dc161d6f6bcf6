//! Pedersen commitments to vectors of scalars.
use crate::error::{CryptoError, ErrorModel};
use crate::field::{
    congruent, fadd, fmul, fsub, lemma_congruent_combination, lemma_congruent_reduced,
    lemma_fadd_comm, lemma_fadd_congruent, lemma_fadd_zero, lemma_fmul_congruent, lemma_fmul_one,
    lemma_fsub_congruent, lemma_linear_combination, lemma_linear_differs, lemma_linear_symmetric,
    lemma_weighted_sum_agrees, lemma_weighted_sum_congruent, lemma_weighted_sum_front, linear,
    order, scalar_values, weighted_sum, Scalar,
};
use crate::group::{multi_scalar_mul, point_encoding, point_values, Point};
use crate::summation::sum;
use crate::zkp::transcript::{points_encoding, write_point, write_points};
use vstd::prelude::*;

verus! {

/// The Pedersen commitment scheme.
pub struct PedersenCommitment {}

/// The key of the scheme: one base for each entry of a vector, and one for the randomness.
#[derive(Clone, Debug)]
pub struct CommitKey {
    g: Vec<Point>,
    h: Point,
}

/// The exponents of a commit key.
pub struct CommitKeyModel {
    pub g: Seq<nat>,
    pub h: nat,
}

impl View for CommitKey {
    type V = CommitKeyModel;

    closed spec fn view(&self) -> CommitKeyModel {
        CommitKeyModel { g: point_values(self.g@), h: self.h@ }
    }
}

/// A commitment.
#[derive(Clone, Copy, Debug, PartialEq, Eq)]
pub struct Commitment(pub Point);

impl View for Commitment {
    type V = nat;

    open spec fn view(&self) -> nat {
        self.0@
    }
}

/// The exponents of a vector of commitments.
pub open spec fn commitment_values(v: Seq<Commitment>) -> Seq<nat> {
    v.map_values(|c: Commitment| c@)
}

/// The commitment to the vector `x` with randomness `r`: `r * h` plus the sum of the
/// `x[i] * g[i]`.
pub open spec fn commitment(ck: CommitKeyModel, x: Seq<nat>, r: nat) -> nat {
    fadd(fmul(r, ck.h), weighted_sum(x, ck.g, x.len()))
}

/// The encoding of a commit key: its bases for the entries, then its base for the randomness.
pub open spec fn commit_key_encoding(ck: CommitKeyModel) -> Seq<u8> {
    points_encoding(ck.g) + point_encoding(ck.h)
}

impl CommitKey {
    /// The key with the given bases.
    pub fn new(g: Vec<Point>, h: Point) -> (ck: CommitKey)
        ensures
            ck@ == (CommitKeyModel { g: point_values(g@), h: h@ }),
    {
        CommitKey { g, h }
    }

    /// The number of entries that the key can commit to.
    pub fn len(&self) -> (n: usize)
        ensures
            n == self@.g.len(),
    {
        self.g.len()
    }

    /// Appends the encoding of the key to a buffer.
    pub fn write(&self, buf: &mut Vec<u8>)
        ensures
            final(buf)@ == old(buf)@ + commit_key_encoding(self@),
    {
        write_points(buf, &self.g);
        write_point(buf, &self.h);
        assert(final(buf)@ =~= old(buf)@ + commit_key_encoding(self@));
    }
}

impl Commitment {
    /// The commitment to nothing with no randomness.
    pub fn zero() -> (r: Commitment)
        ensures
            r@ == 0,
    {
        Commitment(Point::zero())
    }

    /// Whether two commitments are the same.
    pub fn equals(&self, other: &Commitment) -> (r: bool)
        ensures
            r == (self@ == other@),
    {
        self.0.equals(&other.0)
    }

    /// The sum of two commitments.
    pub fn add(&self, other: &Commitment) -> (r: Commitment)
        ensures
            r@ == fadd(self@, other@),
    {
        Commitment(self.0.add(&other.0))
    }

    /// The commitment multiplied by a scalar.
    pub fn mul(&self, scalar: &Scalar) -> (r: Commitment)
        ensures
            r@ == fmul(scalar@, self@),
    {
        Commitment(self.0.mul(scalar))
    }

    /// Appends the encoding of the commitment to a buffer.
    pub fn write(&self, buf: &mut Vec<u8>)
        ensures
            final(buf)@ == old(buf)@ + point_encoding(self@),
    {
        write_point(buf, &self.0);
    }

    /// Appends the encodings of a vector of commitments to a buffer.
    pub fn write_all(buf: &mut Vec<u8>, v: &Vec<Commitment>)
        ensures
            final(buf)@ == old(buf)@ + points_encoding(commitment_values(v@)),
    {
        let mut i: usize = 0;
        while i < v.len()
            invariant
                i <= v@.len(),
                buf@ == old(buf)@ + points_encoding(commitment_values(v@).take(i as int)),
            decreases v@.len() - i,
        {
            v[i].write(buf);
            i = i + 1;
            assert(commitment_values(v@).take(i as int).drop_last() == commitment_values(v@).take(
                i - 1,
            ));
        }
        assert(commitment_values(v@).take(v@.len() as int) == commitment_values(v@));
    }

    /// The sum of the commitments, each multiplied by its scalar; the vectors must have the
    /// same length.
    pub fn dot_product(scalars: &Vec<Scalar>, commitments: &Vec<Commitment>) -> (r: Result<
        Commitment,
        CryptoError,
    >)
        ensures
            match r {
                Ok(c) => scalars@.len() == commitments@.len() && c@ == weighted_sum(
                    scalar_values(scalars@),
                    commitment_values(commitments@),
                    scalars@.len(),
                ),
                Err(e) => scalars@.len() != commitments@.len() && e@
                    == ErrorModel::DotProductLength(scalars@.len(), commitments@.len()),
            },
    {
        if scalars.len() != commitments.len() {
            return Err(CryptoError::DotProductLengthError(scalars.len(), commitments.len()));
        }
        let mut acc = Commitment::zero();
        let mut i: usize = 0;
        while i < scalars.len()
            invariant
                i <= scalars@.len(),
                scalars@.len() == commitments@.len(),
                acc@ == weighted_sum(
                    scalar_values(scalars@),
                    commitment_values(commitments@),
                    i as nat,
                ),
            decreases scalars@.len() - i,
        {
            let term = commitments[i].mul(&scalars[i]);
            acc = acc.add(&term);
            i = i + 1;
        }
        Ok(acc)
    }
}

impl PedersenCommitment {
    /// A key for vectors of up to `len` entries, with bases drawn from the random number
    /// generator.
    pub fn setup(public_randomness: &mut rand::rngs::StdRng, len: usize) -> (ck: CommitKey)
        ensures
            ck@.g.len() == len,
    {
        let mut g: Vec<Point> = Vec::new();
        let mut i: usize = 0;
        while i < len
            invariant
                i <= len,
                g@.len() == i,
            decreases len - i,
        {
            g.push(Point::rand(public_randomness));
            i = i + 1;
        }
        let h = Point::rand(public_randomness);
        CommitKey { g, h }
    }

    /// Commits to the vector `x` with randomness `r`. The key must have a base for every entry
    /// of `x`; it may have more.
    pub fn commit(commit_key: &CommitKey, x: &Vec<Scalar>, r: Scalar) -> (c: Result<
        Commitment,
        CryptoError,
    >)
        ensures
            match c {
                Ok(c) => x@.len() <= commit_key@.g.len() && c@ == commitment(
                    commit_key@,
                    scalar_values(x@),
                    r@,
                ),
                Err(e) => x@.len() > commit_key@.g.len() && e@ == ErrorModel::CommitmentLength(
                    "Pedersen"@,
                    x@.len(),
                    commit_key@.g.len(),
                ),
            },
    {
        if x.len() > commit_key.g.len() {
            return Err(
                CryptoError::CommitmentLengthError("Pedersen".to_owned(), x.len(), commit_key.g.len()),
            );
        }
        let mut scalars: Vec<Scalar> = Vec::new();
        scalars.push(r);
        let mut bases: Vec<Point> = Vec::new();
        bases.push(commit_key.h);
        let mut i: usize = 0;
        while i < x.len()
            invariant
                i <= x@.len(),
                x@.len() <= commit_key.g@.len(),
                scalars@ == seq![r] + x@.take(i as int),
                bases@ == seq![commit_key.h] + commit_key.g@.take(i as int),
            decreases x@.len() - i,
        {
            scalars.push(x[i]);
            bases.push(commit_key.g[i]);
            i = i + 1;
            assert(scalars@ =~= seq![r] + x@.take(i as int));
            assert(bases@ =~= seq![commit_key.h] + commit_key.g@.take(i as int));
        }
        let c = multi_scalar_mul(&bases, &scalars);
        proof {
            let k = x@.len();
            let xs = scalar_values(x@);
            let gs = point_values(commit_key.g@);
            assert(x@.take(k as int) == x@);
            assert(scalar_values(scalars@) =~= seq![r@] + xs);
            assert(point_values(bases@) =~= seq![commit_key.h@] + gs.take(k as int));
            lemma_weighted_sum_front(r@, commit_key.h@, xs, gs.take(k as int), k);
            lemma_weighted_sum_agrees(xs, gs.take(k as int), xs, gs, k);
        }
        Ok(Commitment(c))
    }
}

/// What a commitment stands for: `r * h` plus the sum of the `x[i] * g[i]`, as an integer.
pub open spec fn commitment_value(ck: CommitKeyModel, x: Seq<nat>, r: nat) -> int {
    (r as int) * (ck.h as int) + linear(x, ck.g, x.len())
}

/// A commitment stands for `r * h` plus the sum of the `x[i] * g[i]`.
pub proof fn lemma_commitment_congruent(ck: CommitKeyModel, x: Seq<nat>, r: nat)
    ensures
        congruent(commitment(ck, x, r) as int, commitment_value(ck, x, r)),
        commitment(ck, x, r) < order(),
{
    lemma_fmul_congruent(r, ck.h, r as int, ck.h as int);
    lemma_weighted_sum_congruent(x, ck.g, x.len());
    lemma_fadd_congruent(
        fmul(r, ck.h),
        weighted_sum(x, ck.g, x.len()),
        (r as int) * (ck.h as int),
        linear(x, ck.g, x.len()),
    );
}

/// Commitments are linear: when every entry `w[i]` stands for `factor * u[i] + v[i]` and the
/// randomness `t` for `factor * r + s`, the commitment to `w` with `t` is `factor` times the
/// commitment to `u` with `r` plus the commitment to `v` with `s`.
pub proof fn lemma_commitments_combine(
    ck: CommitKeyModel,
    factor: nat,
    u: Seq<nat>,
    r: nat,
    v: Seq<nat>,
    s: nat,
    w: Seq<nat>,
    t: nat,
)
    requires
        u.len() == w.len(),
        v.len() == w.len(),
        congruent(t as int, (factor as int) * (r as int) + (s as int)),
        forall|i: int|
            0 <= i < w.len() ==> congruent(
                #[trigger] w[i] as int,
                (factor as int) * (u[i] as int) + (v[i] as int),
            ),
    ensures
        fadd(fmul(factor, commitment(ck, u, r)), commitment(ck, v, s)) == commitment(ck, w, t),
{
    let n = w.len();
    let (f, h) = (factor as int, ck.h as int);
    let (ri, si, ti) = (r as int, s as int, t as int);
    lemma_commitment_congruent(ck, u, r);
    lemma_commitment_congruent(ck, v, s);
    lemma_commitment_congruent(ck, w, t);
    lemma_fmul_congruent(factor, commitment(ck, u, r), f, commitment_value(ck, u, r));
    lemma_fadd_congruent(
        fmul(factor, commitment(ck, u, r)),
        commitment(ck, v, s),
        f * commitment_value(ck, u, r),
        commitment_value(ck, v, s),
    );
    lemma_linear_combination(f, u, v, w, ck.g, n);
    lemma_congruent_combination(ti, h, linear(w, ck.g, n), f * ri + si, h, f * linear(
        u,
        ck.g,
        n,
    ) + linear(v, ck.g, n));
    assert((f * ri + si) * h + (f * linear(u, ck.g, n) + linear(v, ck.g, n)) == f * (ri * h
        + linear(u, ck.g, n)) + (si * h + linear(v, ck.g, n))) by (nonlinear_arith);
    lemma_congruent_reduced(
        fadd(fmul(factor, commitment(ck, u, r)), commitment(ck, v, s)),
        commitment(ck, w, t),
    );
}

/// The commitment to the vector of zeros with no randomness is the neutral element.
pub proof fn lemma_commitment_to_zeros(ck: CommitKeyModel, zeros: Seq<nat>)
    requires
        forall|i: int| 0 <= i < zeros.len() ==> #[trigger] zeros[i] == 0,
    ensures
        commitment(ck, zeros, 0) == 0,
{
    lemma_commitment_congruent(ck, zeros, 0);
    lemma_linear_of_zeros(zeros, ck.g, zeros.len());
    assert(0 * (ck.h as int) == 0);
    lemma_congruent_reduced(commitment(ck, zeros, 0), 0);
}

/// The combination of the first `k` rows of a matrix with the given weights: entry `j` is the
/// sum of the `weights[i] * rows[i][j]` over `i < k`.
pub open spec fn partial_combination(weights: Seq<nat>, rows: Seq<Seq<nat>>, n: nat, k: nat) -> Seq<
    nat,
> {
    Seq::new(n, |j: int| weighted_sum(weights, Seq::new(rows.len(), |i: int| rows[i][j]), k))
}

/// The commitments to the rows of a matrix, row `i` with the randomness `randoms[i]`.
pub open spec fn commitments_to_rows(ck: CommitKeyModel, rows: Seq<Seq<nat>>, randoms: Seq<nat>) -> Seq<
    nat,
> {
    Seq::new(rows.len(), |i: int| commitment(ck, rows[i], randoms[i]))
}

/// The commitment to a combination of rows is the combination of the commitments to the
/// rows: for rows of `n` entries each, the commitment to the combination of the first `k`
/// rows with the given weights, with the combination of their randomness, is the weighted sum
/// of the commitments to those rows.
pub proof fn lemma_commitment_to_combination(
    ck: CommitKeyModel,
    weights: Seq<nat>,
    rows: Seq<Seq<nat>>,
    randoms: Seq<nat>,
    n: nat,
    k: nat,
)
    requires
        k <= rows.len(),
        k <= weights.len(),
        k <= randoms.len(),
        forall|i: int| 0 <= i < k ==> (#[trigger] rows[i]).len() == n,
    ensures
        commitment(ck, partial_combination(weights, rows, n, k), weighted_sum(weights, randoms, k))
            == weighted_sum(weights, commitments_to_rows(ck, rows, randoms), k),
    decreases k,
{
    let commits = commitments_to_rows(ck, rows, randoms);
    if k == 0 {
        lemma_commitment_to_zeros(ck, partial_combination(weights, rows, n, 0));
    } else {
        let p = (k - 1) as nat;
        lemma_commitment_to_combination(ck, weights, rows, randoms, n, p);
        let before = partial_combination(weights, rows, n, p);
        let after = partial_combination(weights, rows, n, k);
        let factor = weights[p as int];
        assert forall|j: int| 0 <= j < after.len() implies congruent(
            #[trigger] after[j] as int,
            (factor as int) * (rows[p as int][j] as int) + (before[j] as int),
        ) by {
            let column = Seq::new(rows.len(), |i: int| rows[i][j]);
            assert(after[j] == fadd(before[j], fmul(factor, column[p as int])));
            lemma_fmul_congruent(factor, rows[p as int][j], factor as int, rows[p as int][j] as int);
            lemma_fadd_congruent(
                before[j],
                fmul(factor, rows[p as int][j]),
                before[j] as int,
                (factor as int) * (rows[p as int][j] as int),
            );
        }
        lemma_fmul_congruent(factor, randoms[p as int], factor as int, randoms[p as int] as int);
        lemma_fadd_congruent(
            weighted_sum(weights, randoms, p),
            fmul(factor, randoms[p as int]),
            weighted_sum(weights, randoms, p) as int,
            (factor as int) * (randoms[p as int] as int),
        );
        lemma_commitments_combine(
            ck,
            factor,
            rows[p as int],
            randoms[p as int],
            before,
            weighted_sum(weights, randoms, p),
            after,
            weighted_sum(weights, randoms, k),
        );
        lemma_fadd_comm(
            fmul(factor, commits[p as int]),
            weighted_sum(weights, commits, p),
        );
    }
}

/// The inner product of a combination of rows and a vector stands for the combination of
/// the inner products of the rows and the vector.
pub proof fn lemma_linear_of_combination(
    weights: Seq<nat>,
    rows: Seq<Seq<nat>>,
    v: Seq<nat>,
    n: nat,
    k: nat,
    e: spec_fn(int) -> int,
)
    requires
        k <= rows.len(),
        forall|i: int|
            0 <= i < k ==> #[trigger] e(i) == (weights[i] as int) * linear(rows[i], v, n),
    ensures
        congruent(
            linear(partial_combination(weights, rows, n, k), v, n),
            sum(e, k),
        ),
    decreases k,
{
    if k == 0 {
        lemma_linear_of_zeros(partial_combination(weights, rows, n, 0), v, n);
    } else {
        let p = (k - 1) as nat;
        lemma_linear_of_combination(weights, rows, v, n, p, e);
        let before = partial_combination(weights, rows, n, p);
        let after = partial_combination(weights, rows, n, k);
        let factor = weights[p as int];
        assert forall|j: int| 0 <= j < n implies congruent(
            #[trigger] after[j] as int,
            (factor as int) * (rows[p as int][j] as int) + (before[j] as int),
        ) by {
            let column = Seq::new(rows.len(), |i: int| rows[i][j]);
            assert(after[j] == fadd(before[j], fmul(factor, column[p as int])));
            lemma_fmul_congruent(factor, rows[p as int][j], factor as int, rows[p as int][j] as int);
            lemma_fadd_congruent(
                before[j],
                fmul(factor, rows[p as int][j]),
                before[j] as int,
                (factor as int) * (rows[p as int][j] as int),
            );
        }
        lemma_linear_combination(factor as int, rows[p as int], before, after, v, n);
        lemma_congruent_combination(
            1,
            linear(before, v, n),
            (factor as int) * linear(rows[p as int], v, n),
            1,
            sum(e, p),
            e(p as int),
        );
        assert((factor as int) * linear(rows[p as int], v, n) + linear(before, v, n) == 1 * linear(
            before,
            v,
            n,
        ) + (factor as int) * linear(rows[p as int], v, n));
    }
}

/// The inner product of a scaled vector and a vector stands for the factor times the inner
/// product of the two vectors.
pub proof fn lemma_linear_scaled(c: nat, u: Seq<nat>, v: Seq<nat>, n: nat)
    requires
        n <= u.len(),
    ensures
        congruent(
            linear(Seq::new(u.len(), |j: int| fmul(c, u[j])), v, n),
            (c as int) * linear(u, v, n),
        ),
{
    let scaled = Seq::new(u.len(), |j: int| fmul(c, u[j]));
    let zeros = Seq::new(u.len(), |j: int| 0nat);
    assert forall|j: int| 0 <= j < n implies congruent(
        #[trigger] scaled[j] as int,
        (c as int) * (u[j] as int) + (zeros[j] as int),
    ) by {
        lemma_fmul_congruent(c, u[j], c as int, u[j] as int);
    }
    lemma_linear_combination(c as int, u, zeros, scaled, v, n);
    lemma_linear_of_zeros(zeros, v, n);
}

/// The commitments to two vectors that differ in one entry only, with the same randomness,
/// differ by the difference of the two entries times the base of that entry.
pub proof fn lemma_commitments_differ(ck: CommitKeyModel, x: Seq<nat>, w: Seq<nat>, r: nat, at: int)
    requires
        x.len() == w.len(),
        0 <= at < x.len(),
        forall|i: int| 0 <= i < x.len() && i != at ==> x[i] == w[i],
    ensures
        fsub(commitment(ck, x, r), commitment(ck, w, r)) == fmul(fsub(x[at], w[at]), ck.g[at]),
{
    let n = x.len();
    lemma_commitment_congruent(ck, x, r);
    lemma_commitment_congruent(ck, w, r);
    lemma_linear_symmetric(x, ck.g, n);
    lemma_linear_symmetric(w, ck.g, n);
    lemma_linear_differs(ck.g, x, w, n, at);
    lemma_fsub_congruent(
        commitment(ck, x, r),
        commitment(ck, w, r),
        commitment_value(ck, x, r),
        commitment_value(ck, w, r),
    );
    lemma_fsub_congruent(x[at], w[at], x[at] as int, w[at] as int);
    lemma_fmul_congruent(
        fsub(x[at], w[at]),
        ck.g[at],
        (x[at] as int) - (w[at] as int),
        ck.g[at] as int,
    );
    assert((ck.g[at] as int) * ((x[at] as int) - (w[at] as int)) == ((x[at] as int) - (w[at]
        as int)) * (ck.g[at] as int)) by (nonlinear_arith);
    lemma_congruent_reduced(
        fsub(commitment(ck, x, r), commitment(ck, w, r)),
        fmul(fsub(x[at], w[at]), ck.g[at]),
    );
}

/// The entry-wise sum of two vectors of the same length.
pub open spec fn vector_sum(x: Seq<nat>, y: Seq<nat>) -> Seq<nat> {
    Seq::new(x.len(), |i: int| fadd(x[i], y[i]))
}

/// A vector with every entry multiplied by the same factor.
pub open spec fn vector_scaled(factor: nat, x: Seq<nat>) -> Seq<nat> {
    Seq::new(x.len(), |i: int| fmul(factor, x[i]))
}

/// Commitments are additively homomorphic: the sum of the commitments to two vectors of the
/// same length is the commitment to their sum, with the sum of the randomness.
pub proof fn lemma_commitments_add(ck: CommitKeyModel, x: Seq<nat>, r: nat, y: Seq<nat>, s: nat)
    requires
        x.len() == y.len(),
    ensures
        fadd(commitment(ck, x, r), commitment(ck, y, s)) == commitment(
            ck,
            vector_sum(x, y),
            fadd(r, s),
        ),
{
    let w = vector_sum(x, y);
    lemma_fadd_congruent(r, s, r as int, s as int);
    assert forall|i: int| 0 <= i < w.len() implies congruent(
        #[trigger] w[i] as int,
        1 * (x[i] as int) + (y[i] as int),
    ) by {
        lemma_fadd_congruent(x[i], y[i], x[i] as int, y[i] as int);
    }
    lemma_commitments_combine(ck, 1, x, r, y, s, w, fadd(r, s));
    lemma_commitment_congruent(ck, x, r);
    lemma_fmul_one(commitment(ck, x, r));
}

/// Commitments are homomorphic for scalar multiplication: a commitment multiplied by a scalar
/// is the commitment to the vector multiplied by the scalar, with the randomness multiplied
/// by the scalar.
pub proof fn lemma_commitment_scales(ck: CommitKeyModel, factor: nat, x: Seq<nat>, r: nat)
    ensures
        fmul(factor, commitment(ck, x, r)) == commitment(
            ck,
            vector_scaled(factor, x),
            fmul(factor, r),
        ),
{
    let w = vector_scaled(factor, x);
    let zeros = Seq::new(x.len(), |i: int| 0nat);
    lemma_fmul_congruent(factor, r, factor as int, r as int);
    assert forall|i: int| 0 <= i < w.len() implies congruent(
        #[trigger] w[i] as int,
        (factor as int) * (x[i] as int) + (zeros[i] as int),
    ) by {
        lemma_fmul_congruent(factor, x[i], factor as int, x[i] as int);
    }
    lemma_commitments_combine(ck, factor, x, r, zeros, 0, w, fmul(factor, r));
    // The commitment to the vector of zeros with no randomness is neutral.
    lemma_commitment_congruent(ck, zeros, 0);
    assert(linear(zeros, ck.g, zeros.len()) == 0) by {
        lemma_linear_of_zeros(zeros, ck.g, zeros.len());
    }
    assert(0 * (ck.h as int) == 0);
    lemma_congruent_reduced(commitment(ck, zeros, 0), 0);
    lemma_commitment_congruent(ck, x, r);
    lemma_fmul_congruent(
        factor,
        commitment(ck, x, r),
        factor as int,
        commitment_value(ck, x, r),
    );
    lemma_fadd_zero(fmul(factor, commitment(ck, x, r)));
}

/// The sum of the products of zeros with anything is zero.
pub proof fn lemma_linear_of_zeros(zeros: Seq<nat>, g: Seq<nat>, n: nat)
    requires
        n <= zeros.len(),
        forall|i: int| 0 <= i < zeros.len() ==> #[trigger] zeros[i] == 0,
    ensures
        linear(zeros, g, n) == 0,
    decreases n,
{
    if n > 0 {
        lemma_linear_of_zeros(zeros, g, (n - 1) as nat);
        assert(zeros[n - 1] == 0);
        assert(0 * (g[n - 1] as int) == 0);
    }
}

} // verus!
