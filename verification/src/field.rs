//! The scalar field: integers modulo the prime order of the group.
use ark_ff::{BigInteger256, PrimeField, ToBytes, UniformRand};
use vstd::arithmetic::power::pow;
use vstd::prelude::*;

verus! {

/// The radix of the limbs of a scalar: two to the power 64.
pub open spec fn limb_base() -> nat {
    0x1_0000_0000_0000_0000
}

/// The prime order of the group, which is also the modulus of the scalar field.
pub open spec fn order() -> nat {
    4891460686036598785 + 2896914383306846353 * limb_base() + 13281191951274694749 * limb_base()
        * limb_base() + 3486998266802970665 * limb_base() * limb_base() * limb_base()
}

/// The integer that four little-endian limbs stand for.
pub open spec fn limbs_value(l: Seq<u64>) -> nat {
    (l[0] as nat) + (l[1] as nat) * limb_base() + (l[2] as nat) * limb_base() * limb_base() + (
    l[3] as nat) * limb_base() * limb_base() * limb_base()
}

/// Addition in the field.
pub open spec fn fadd(a: nat, b: nat) -> nat {
    (a + b) % order()
}

/// Subtraction in the field.
pub open spec fn fsub(a: nat, b: nat) -> nat {
    ((a as int - b as int) % (order() as int)) as nat
}

/// Negation in the field.
pub open spec fn fneg(a: nat) -> nat {
    fsub(0, a)
}

/// Multiplication in the field.
pub open spec fn fmul(a: nat, b: nat) -> nat {
    (a * b) % order()
}

/// A power of a field element.
pub open spec fn fpow(x: nat, n: nat) -> nat
    decreases n,
{
    if n == 0 {
        1
    } else {
        fmul(fpow(x, (n - 1) as nat), x)
    }
}

/// The powers `x^0, x^1, ..` of a field element, `n` of them.
pub open spec fn powers(x: nat, n: nat) -> Seq<nat> {
    Seq::new(n, |i: int| fpow(x, i as nat))
}

/// The sum of the first `n` products `u[i] * v[i]`, in the field.
pub open spec fn weighted_sum(u: Seq<nat>, v: Seq<nat>, n: nat) -> nat
    decreases n,
{
    if n == 0 {
        0
    } else {
        fadd(weighted_sum(u, v, (n - 1) as nat), fmul(u[n - 1], v[n - 1]))
    }
}

/// The smaller of two lengths.
pub open spec fn shorter(a: nat, b: nat) -> nat {
    if a <= b {
        a
    } else {
        b
    }
}

/// Whether every entry of a vector is reduced modulo the order.
pub open spec fn reduced(v: Seq<nat>) -> bool {
    forall|i: int| 0 <= i < v.len() ==> #[trigger] v[i] < order()
}

/// The 32 little-endian bytes that encode a field element.
pub open spec fn scalar_encoding(v: nat) -> Seq<u8> {
    Seq::new(32, |i: int| ((v / (pow(256, i as nat) as nat)) % 256) as u8)
}

/// An element of the scalar field, held as the four little-endian limbs of its canonical
/// representative.
#[derive(Clone, Copy, Debug, PartialEq, Eq)]
pub struct Scalar {
    pub(crate) limbs: [u64; 4],
}

impl View for Scalar {
    type V = nat;

    closed spec fn view(&self) -> nat {
        limbs_value(self.limbs@)
    }
}

/// The elements of a vector of scalars.
pub open spec fn scalar_values(v: Seq<Scalar>) -> Seq<nat> {
    v.map_values(|s: Scalar| s@)
}

/// The rows of a matrix of scalars.
pub open spec fn matrix_values(m: Seq<Vec<Scalar>>) -> Seq<Seq<nat>> {
    m.map_values(|row: Vec<Scalar>| scalar_values(row@))
}

/// Four limbs are determined by the integer that they stand for.
proof fn lemma_limbs_injective(a: Seq<u64>, b: Seq<u64>)
    requires
        a.len() == 4,
        b.len() == 4,
        limbs_value(a) == limbs_value(b),
    ensures
        a =~= b,
{
    let base = limb_base() as int;
    let ha = a[1] as int + (a[2] as int) * base + (a[3] as int) * base * base;
    let hb = b[1] as int + (b[2] as int) * base + (b[3] as int) * base * base;
    assert(limbs_value(a) as int == ha * base + a[0] as int) by (nonlinear_arith)
        requires
            limbs_value(a) as int == a[0] as int + (a[1] as int) * base + (a[2] as int) * base
                * base + (a[3] as int) * base * base * base,
            ha == a[1] as int + (a[2] as int) * base + (a[3] as int) * base * base,
    ;
    assert(limbs_value(b) as int == hb * base + b[0] as int) by (nonlinear_arith)
        requires
            limbs_value(b) as int == b[0] as int + (b[1] as int) * base + (b[2] as int) * base
                * base + (b[3] as int) * base * base * base,
            hb == b[1] as int + (b[2] as int) * base + (b[3] as int) * base * base,
    ;
    vstd::arithmetic::div_mod::lemma_fundamental_div_mod_converse(
        limbs_value(a) as int,
        base,
        ha,
        a[0] as int,
    );
    vstd::arithmetic::div_mod::lemma_fundamental_div_mod_converse(
        limbs_value(b) as int,
        base,
        hb,
        b[0] as int,
    );
    let ga = a[2] as int + (a[3] as int) * base;
    let gb = b[2] as int + (b[3] as int) * base;
    assert(ha == ga * base + a[1] as int) by (nonlinear_arith)
        requires
            ha == a[1] as int + (a[2] as int) * base + (a[3] as int) * base * base,
            ga == a[2] as int + (a[3] as int) * base,
    ;
    assert(hb == gb * base + b[1] as int) by (nonlinear_arith)
        requires
            hb == b[1] as int + (b[2] as int) * base + (b[3] as int) * base * base,
            gb == b[2] as int + (b[3] as int) * base,
    ;
    vstd::arithmetic::div_mod::lemma_fundamental_div_mod_converse(ha, base, ga, a[1] as int);
    vstd::arithmetic::div_mod::lemma_fundamental_div_mod_converse(hb, base, gb, b[1] as int);
    assert(ga == (a[3] as int) * base + a[2] as int) by (nonlinear_arith)
        requires
            ga == a[2] as int + (a[3] as int) * base,
    ;
    assert(gb == (b[3] as int) * base + b[2] as int) by (nonlinear_arith)
        requires
            gb == b[2] as int + (b[3] as int) * base,
    ;
    vstd::arithmetic::div_mod::lemma_fundamental_div_mod_converse(
        ga,
        base,
        a[3] as int,
        a[2] as int,
    );
    vstd::arithmetic::div_mod::lemma_fundamental_div_mod_converse(
        gb,
        base,
        b[3] as int,
        b[2] as int,
    );
}

impl Scalar {
    #[verifier::type_invariant]
    spec fn canonical(self) -> bool {
        self@ < order()
    }

    /// The four little-endian limbs of the canonical representative.
    pub fn limbs(&self) -> (l: [u64; 4])
        ensures
            limbs_value(l@) == self@,
            self@ < order(),
    {
        proof {
            use_type_invariant(self);
        }
        self.limbs
    }

    /// The scalar with the given limbs, if they stand for a number below the order.
    pub fn from_limbs(limbs: [u64; 4]) -> (r: Option<Scalar>)
        ensures
            match r {
                Some(s) => s@ == limbs_value(limbs@),
                None => limbs_value(limbs@) >= order(),
            },
    {
        scalar_from_limbs(limbs)
    }

    /// The additive identity.
    pub fn zero() -> (r: Scalar)
        ensures
            r@ == 0,
    {
        Scalar { limbs: [0, 0, 0, 0] }
    }

    /// The multiplicative identity.
    pub fn one() -> (r: Scalar)
        ensures
            r@ == 1,
    {
        Scalar { limbs: [1, 0, 0, 0] }
    }

    /// The field element that stands for a machine integer.
    pub fn from_u64(v: u64) -> (r: Scalar)
        ensures
            r@ == v,
    {
        Scalar { limbs: [v, 0, 0, 0] }
    }

    /// Whether two scalars are the same field element.
    pub fn equals(&self, other: &Scalar) -> (r: bool)
        ensures
            r == (self@ == other@),
    {
        let same = self.limbs[0] == other.limbs[0] && self.limbs[1] == other.limbs[1]
            && self.limbs[2] == other.limbs[2] && self.limbs[3] == other.limbs[3];
        proof {
            if self@ == other@ {
                lemma_limbs_injective(self.limbs@, other.limbs@);
            }
            if same {
                assert(self.limbs@ =~= other.limbs@);
            }
        }
        same
    }

    /// The sum of two scalars.
    pub fn add(&self, other: &Scalar) -> (r: Scalar)
        ensures
            r@ == fadd(self@, other@),
    {
        scalar_add(self, other)
    }

    /// The difference of two scalars.
    pub fn sub(&self, other: &Scalar) -> (r: Scalar)
        ensures
            r@ == fsub(self@, other@),
    {
        scalar_sub(self, other)
    }

    /// The product of two scalars.
    pub fn mul(&self, other: &Scalar) -> (r: Scalar)
        ensures
            r@ == fmul(self@, other@),
    {
        scalar_mul(self, other)
    }

    /// The additive inverse of a scalar.
    pub fn neg(&self) -> (r: Scalar)
        ensures
            r@ == fneg(self@),
    {
        scalar_neg(self)
    }

    /// A scalar drawn from the random number generator.
    pub fn rand(rng: &mut rand::rngs::StdRng) -> (r: Scalar)
        ensures
            r@ < order(),
    {
        let r = scalar_rand(rng);
        proof {
            use_type_invariant(&r);
        }
        r
    }

    /// The byte encoding of the scalar: its canonical representative in 32 little-endian bytes.
    pub fn to_bytes(&self) -> (bytes: Vec<u8>)
        ensures
            bytes@ == scalar_encoding(self@),
    {
        scalar_bytes(self)
    }
}

/// Field addition of `ark_bn254::Fr`, on canonical representatives: the result stands for the
/// sum of the two integers reduced modulo the order.
#[verifier::external_body]
fn scalar_add(a: &Scalar, b: &Scalar) -> (r: Scalar)
    ensures
        r@ == fadd(a@, b@),
{
    let x = ark_bn254::Fr::from_repr(BigInteger256(a.limbs)).unwrap();
    let y = ark_bn254::Fr::from_repr(BigInteger256(b.limbs)).unwrap();
    Scalar { limbs: (x + y).into_repr().0 }
}

/// Field subtraction of `ark_bn254::Fr`, on canonical representatives: the result stands for
/// the difference of the two integers reduced modulo the order.
#[verifier::external_body]
fn scalar_sub(a: &Scalar, b: &Scalar) -> (r: Scalar)
    ensures
        r@ == fsub(a@, b@),
{
    let x = ark_bn254::Fr::from_repr(BigInteger256(a.limbs)).unwrap();
    let y = ark_bn254::Fr::from_repr(BigInteger256(b.limbs)).unwrap();
    Scalar { limbs: (x - y).into_repr().0 }
}

/// Field multiplication of `ark_bn254::Fr`, on canonical representatives: the result stands for
/// the product of the two integers reduced modulo the order.
#[verifier::external_body]
fn scalar_mul(a: &Scalar, b: &Scalar) -> (r: Scalar)
    ensures
        r@ == fmul(a@, b@),
{
    let x = ark_bn254::Fr::from_repr(BigInteger256(a.limbs)).unwrap();
    let y = ark_bn254::Fr::from_repr(BigInteger256(b.limbs)).unwrap();
    Scalar { limbs: (x * y).into_repr().0 }
}

/// Field negation of `ark_bn254::Fr`, on a canonical representative: the result stands for the
/// negated integer reduced modulo the order.
#[verifier::external_body]
fn scalar_neg(a: &Scalar) -> (r: Scalar)
    ensures
        r@ == fneg(a@),
{
    let x = ark_bn254::Fr::from_repr(BigInteger256(a.limbs)).unwrap();
    Scalar { limbs: (-x).into_repr().0 }
}

/// `PrimeField::from_repr` of `ark_bn254::Fr`: the field element that the limbs are the
/// canonical representative of, or nothing when they stand for a number that is not below the
/// modulus.
#[verifier::external_body]
fn scalar_from_limbs(limbs: [u64; 4]) -> (r: Option<Scalar>)
    ensures
        match r {
            Some(s) => s@ == limbs_value(limbs@),
            None => limbs_value(limbs@) >= order(),
        },
{
    match ark_bn254::Fr::from_repr(BigInteger256(limbs)) {
        Some(x) => Some(Scalar { limbs: x.into_repr().0 }),
        None => None,
    }
}

/// `UniformRand::rand` of `ark_bn254::Fr`: some field element, of which nothing more is known.
#[verifier::external_body]
fn scalar_rand(rng: &mut rand::rngs::StdRng) -> (r: Scalar)
{
    Scalar { limbs: ark_bn254::Fr::rand(rng).into_repr().0 }
}

/// `ToBytes::write` of `ark_bn254::Fr` into an empty buffer: the four limbs of the canonical
/// representative, each as eight little-endian bytes.
#[verifier::external_body]
fn scalar_bytes(a: &Scalar) -> (bytes: Vec<u8>)
    ensures
        bytes@ == scalar_encoding(a@),
{
    let x = ark_bn254::Fr::from_repr(BigInteger256(a.limbs)).unwrap();
    let mut bytes = Vec::new();
    x.write(&mut bytes).unwrap();
    bytes
}

/// Addition in the field is commutative.
pub proof fn lemma_fadd_comm(a: nat, b: nat)
    ensures
        fadd(a, b) == fadd(b, a),
{
}

/// Addition in the field is associative.
pub proof fn lemma_fadd_assoc(a: nat, b: nat, c: nat)
    ensures
        fadd(fadd(a, b), c) == fadd(a, fadd(b, c)),
{
    let q = order() as int;
    vstd::arithmetic::div_mod::lemma_add_mod_noop_right(c as int, (a + b) as int, q);
    vstd::arithmetic::div_mod::lemma_add_mod_noop_right(a as int, (b + c) as int, q);
    assert(((a + b) % order() + c) as int == c as int + ((a + b) as int % q));
    assert((a + (b + c) % order()) as int == a as int + ((b + c) as int % q));
}

/// Zero is neutral for addition, up to reduction.
pub proof fn lemma_fadd_zero(a: nat)
    ensures
        fadd(a, 0) == a % order(),
        fadd(0, a) == a % order(),
        a < order() ==> fadd(a, 0) == a && fadd(0, a) == a,
{
    if a < order() {
        vstd::arithmetic::div_mod::lemma_small_mod(a, order());
    }
}

/// Multiplication in the field is commutative.
pub proof fn lemma_fmul_comm(a: nat, b: nat)
    ensures
        fmul(a, b) == fmul(b, a),
{
    assert(a * b == b * a) by (nonlinear_arith);
}

/// One is neutral for multiplication, up to reduction.
pub proof fn lemma_fmul_one(a: nat)
    ensures
        fmul(a, 1) == a % order(),
        fmul(1, a) == a % order(),
        a < order() ==> fmul(a, 1) == a && fmul(1, a) == a,
{
    assert(a * 1 == a) by (nonlinear_arith);
    assert(1 * a == a) by (nonlinear_arith);
    if a < order() {
        vstd::arithmetic::div_mod::lemma_small_mod(a, order());
    }
}

/// Zero absorbs in multiplication.
pub proof fn lemma_fmul_zero(a: nat)
    ensures
        fmul(a, 0) == 0,
        fmul(0, a) == 0,
{
    assert(a * 0 == 0) by (nonlinear_arith);
    assert(0 * a == 0) by (nonlinear_arith);
}

/// A weighted sum does not depend on the entries beyond those that it adds up.
pub proof fn lemma_weighted_sum_agrees(u: Seq<nat>, v: Seq<nat>, s: Seq<nat>, t: Seq<nat>, n: nat)
    requires
        n <= u.len(),
        n <= v.len(),
        n <= s.len(),
        n <= t.len(),
        forall|i: int| 0 <= i < n ==> u[i] == s[i] && v[i] == t[i],
    ensures
        weighted_sum(u, v, n) == weighted_sum(s, t, n),
    decreases n,
{
    if n > 0 {
        lemma_weighted_sum_agrees(u, v, s, t, (n - 1) as nat);
    }
}

/// A weighted sum with one more product in front.
pub proof fn lemma_weighted_sum_front(u0: nat, v0: nat, u: Seq<nat>, v: Seq<nat>, n: nat)
    requires
        n <= u.len(),
        n <= v.len(),
    ensures
        weighted_sum(seq![u0] + u, seq![v0] + v, n + 1) == fadd(fmul(u0, v0), weighted_sum(u, v, n)),
    decreases n,
{
    let uu = seq![u0] + u;
    let vv = seq![v0] + v;
    if n == 0 {
        assert(weighted_sum(uu, vv, 0) == 0);
        assert(weighted_sum(uu, vv, 1) == fadd(weighted_sum(uu, vv, 0), fmul(uu[0], vv[0])));
        assert(weighted_sum(u, v, 0) == 0);
        lemma_fadd_comm(0, fmul(u0, v0));
    } else {
        lemma_weighted_sum_front(u0, v0, u, v, (n - 1) as nat);
        assert(uu[n as int] == u[n - 1]);
        assert(vv[n as int] == v[n - 1]);
        lemma_fadd_assoc(fmul(u0, v0), weighted_sum(u, v, (n - 1) as nat), fmul(u[n - 1], v[n - 1]));
    }
}

/// Whether two integers stand for the same field element.
pub open spec fn congruent(a: int, b: int) -> bool {
    a % (order() as int) == b % (order() as int)
}

/// Two reduced numbers that stand for the same field element are equal.
pub proof fn lemma_congruent_reduced(a: nat, b: nat)
    requires
        a < order(),
        b < order(),
        congruent(a as int, b as int),
    ensures
        a == b,
{
    vstd::arithmetic::div_mod::lemma_small_mod(a, order());
    vstd::arithmetic::div_mod::lemma_small_mod(b, order());
}

/// A sum in the field stands for the sum of what its operands stand for.
pub proof fn lemma_fadd_congruent(a: nat, b: nat, x: int, y: int)
    requires
        congruent(a as int, x),
        congruent(b as int, y),
    ensures
        congruent(fadd(a, b) as int, x + y),
        fadd(a, b) < order(),
{
    let q = order() as int;
    vstd::arithmetic::div_mod::lemma_add_mod_noop(a as int, b as int, q);
    vstd::arithmetic::div_mod::lemma_add_mod_noop(x, y, q);
    vstd::arithmetic::div_mod::lemma_mod_twice((a + b) as int, q);
}

/// A difference in the field stands for the difference of what its operands stand for.
pub proof fn lemma_fsub_congruent(a: nat, b: nat, x: int, y: int)
    requires
        congruent(a as int, x),
        congruent(b as int, y),
    ensures
        congruent(fsub(a, b) as int, x - y),
        fsub(a, b) < order(),
{
    let q = order() as int;
    vstd::arithmetic::div_mod::lemma_sub_mod_noop(a as int, b as int, q);
    vstd::arithmetic::div_mod::lemma_sub_mod_noop(x, y, q);
    vstd::arithmetic::div_mod::lemma_mod_twice(a as int - b as int, q);
}

/// A negation in the field stands for the negation of what its operand stands for.
pub proof fn lemma_fneg_congruent(a: nat, x: int)
    requires
        congruent(a as int, x),
    ensures
        congruent(fneg(a) as int, -x),
        fneg(a) < order(),
{
    lemma_fsub_congruent(0, a, 0, x);
}

/// A product in the field stands for the product of what its operands stand for.
pub proof fn lemma_fmul_congruent(a: nat, b: nat, x: int, y: int)
    requires
        congruent(a as int, x),
        congruent(b as int, y),
    ensures
        congruent(fmul(a, b) as int, x * y),
        fmul(a, b) < order(),
{
    let q = order() as int;
    vstd::arithmetic::div_mod::lemma_mul_mod_noop_general(a as int, b as int, q);
    vstd::arithmetic::div_mod::lemma_mul_mod_noop_general(x, y, q);
    vstd::arithmetic::div_mod::lemma_mod_twice((a * b) as int, q);
}

/// Two integers whose difference stands for a field element other than zero do not stand for
/// the same field element.
pub proof fn lemma_not_congruent(a: int, b: int, difference: nat)
    requires
        congruent(difference as int, a - b),
        difference < order(),
        difference != 0,
    ensures
        !congruent(a, b),
{
    let q = order() as int;
    if congruent(a, b) {
        vstd::arithmetic::div_mod::lemma_sub_mod_noop(a, b, q);
        vstd::arithmetic::div_mod::lemma_small_mod(0, order());
        vstd::arithmetic::div_mod::lemma_small_mod(difference, order());
        assert(false);
    }
}

/// Sums and products of integers that stand for the same field elements stand for the same
/// field element.
pub proof fn lemma_congruent_combination(x: int, u: int, v: int, y: int, s: int, t: int)
    requires
        congruent(x, y),
        congruent(u, s),
        congruent(v, t),
    ensures
        congruent(x * u + v, y * s + t),
        congruent(x * u, y * s),
        congruent(u + v, s + t),
        congruent(u - v, s - t),
{
    let q = order() as int;
    vstd::arithmetic::div_mod::lemma_mul_mod_noop_general(x, u, q);
    vstd::arithmetic::div_mod::lemma_mul_mod_noop_general(y, s, q);
    vstd::arithmetic::div_mod::lemma_add_mod_noop(x * u, v, q);
    vstd::arithmetic::div_mod::lemma_add_mod_noop(y * s, t, q);
    vstd::arithmetic::div_mod::lemma_add_mod_noop(u, v, q);
    vstd::arithmetic::div_mod::lemma_add_mod_noop(s, t, q);
    vstd::arithmetic::div_mod::lemma_sub_mod_noop(u, v, q);
    vstd::arithmetic::div_mod::lemma_sub_mod_noop(s, t, q);
}

/// The sum of the first `n` products `u[i] * v[i]`, as an integer.
pub open spec fn linear(u: Seq<nat>, v: Seq<nat>, n: nat) -> int
    decreases n,
{
    if n == 0 {
        0
    } else {
        linear(u, v, (n - 1) as nat) + (u[n - 1] as int) * (v[n - 1] as int)
    }
}

/// A weighted sum in the field stands for the sum of the products of its entries.
pub proof fn lemma_weighted_sum_congruent(u: Seq<nat>, v: Seq<nat>, n: nat)
    ensures
        congruent(weighted_sum(u, v, n) as int, linear(u, v, n)),
        weighted_sum(u, v, n) < order(),
    decreases n,
{
    if n > 0 {
        lemma_weighted_sum_congruent(u, v, (n - 1) as nat);
        lemma_fmul_congruent(u[n - 1], v[n - 1], u[n - 1] as int, v[n - 1] as int);
        lemma_fadd_congruent(
            weighted_sum(u, v, (n - 1) as nat),
            fmul(u[n - 1], v[n - 1]),
            linear(u, v, (n - 1) as nat),
            (u[n - 1] as int) * (v[n - 1] as int),
        );
    }
}

/// When every entry `w[i]` stands for `x * u[i] + v[i]`, the sum of the products `w[i] * g[i]`
/// stands for `x` times the sum of the `u[i] * g[i]` plus the sum of the `v[i] * g[i]`.
pub proof fn lemma_linear_combination(
    x: int,
    u: Seq<nat>,
    v: Seq<nat>,
    w: Seq<nat>,
    g: Seq<nat>,
    n: nat,
)
    requires
        forall|i: int| 0 <= i < n ==> congruent(#[trigger] w[i] as int, x * (u[i] as int) + (v[i] as int)),
    ensures
        congruent(linear(w, g, n), x * linear(u, g, n) + linear(v, g, n)),
    decreases n,
{
    if n > 0 {
        let k = (n - 1) as nat;
        lemma_linear_combination(x, u, v, w, g, k);
        let (ui, vi, wi, gi) = (u[n - 1] as int, v[n - 1] as int, w[n - 1] as int, g[n - 1] as int);
        assert(congruent(wi, x * ui + vi));
        lemma_congruent_combination(wi, gi, 0, x * ui + vi, gi, 0);
        lemma_congruent_combination(
            1,
            linear(w, g, k),
            wi * gi,
            1,
            x * linear(u, g, k) + linear(v, g, k),
            (x * ui + vi) * gi,
        );
        assert(1 * linear(w, g, k) + wi * gi == linear(w, g, n));
        assert(1 * (x * linear(u, g, k) + linear(v, g, k)) + (x * ui + vi) * gi == x * linear(
            u,
            g,
            n,
        ) + linear(v, g, n)) by (nonlinear_arith)
            requires
                linear(u, g, n) == linear(u, g, k) + ui * gi,
                linear(v, g, n) == linear(v, g, k) + vi * gi,
        ;
    }
}

/// A power with a sum as exponent stands for the product of the powers.
pub proof fn lemma_fpow_adds(x: nat, a: nat, b: nat)
    ensures
        congruent(fpow(x, a + b) as int, (fpow(x, a) as int) * (fpow(x, b) as int)),
        fpow(x, a + b) < order(),
    decreases b,
{
    if b == 0 {
        assert((fpow(x, a) as int) * 1 == fpow(x, a) as int);
        lemma_fpow_reduced(x, a);
    } else {
        let c = (b - 1) as nat;
        lemma_fpow_adds(x, a, c);
        assert(fpow(x, a + b) == fmul(fpow(x, a + c), x));
        lemma_fmul_congruent(
            fpow(x, a + c),
            x,
            (fpow(x, a) as int) * (fpow(x, c) as int),
            x as int,
        );
        lemma_fmul_congruent(fpow(x, c), x, fpow(x, c) as int, x as int);
        lemma_congruent_combination(
            fpow(x, a) as int,
            fpow(x, b) as int,
            0,
            fpow(x, a) as int,
            (fpow(x, c) as int) * (x as int),
            0,
        );
        assert((fpow(x, a) as int) * (fpow(x, c) as int) * (x as int) == (fpow(x, a) as int) * ((
        fpow(x, c) as int) * (x as int))) by (nonlinear_arith);
    }
}

/// Powers are reduced.
pub proof fn lemma_fpow_reduced(x: nat, n: nat)
    ensures
        fpow(x, n) < order(),
{
}

/// Multiplying by one changes no reduced field element; adding zero neither.
pub proof fn lemma_neutral(a: nat)
    requires
        a < order(),
    ensures
        fmul(1, a) == a,
        fmul(a, 1) == a,
        fadd(a, 0) == a,
        fadd(0, a) == a,
{
    lemma_fmul_one(a);
    lemma_fadd_zero(a);
}

/// Two weighted sums whose second vectors differ in one entry only differ by the weight of
/// that entry times the difference of the two entries.
pub proof fn lemma_weighted_sums_differ(u: Seq<nat>, v: Seq<nat>, w: Seq<nat>, n: nat, at: int)
    requires
        0 <= at < n,
        forall|i: int| 0 <= i < n && i != at ==> v[i] == w[i],
    ensures
        fsub(weighted_sum(u, v, n), weighted_sum(u, w, n)) == fmul(u[at], fsub(v[at], w[at])),
{
    lemma_weighted_sum_congruent(u, v, n);
    lemma_weighted_sum_congruent(u, w, n);
    lemma_linear_differs(u, v, w, n, at);
    lemma_fsub_congruent(
        weighted_sum(u, v, n),
        weighted_sum(u, w, n),
        linear(u, v, n),
        linear(u, w, n),
    );
    lemma_fsub_congruent(v[at], w[at], v[at] as int, w[at] as int);
    lemma_fmul_congruent(u[at], fsub(v[at], w[at]), u[at] as int, (v[at] as int) - (w[at] as int));
    lemma_congruent_reduced(
        fsub(weighted_sum(u, v, n), weighted_sum(u, w, n)),
        fmul(u[at], fsub(v[at], w[at])),
    );
}

/// The sums of the products of the entries of two pairs of vectors whose second vectors
/// differ in one entry only.
pub proof fn lemma_linear_differs(u: Seq<nat>, v: Seq<nat>, w: Seq<nat>, n: nat, at: int)
    requires
        forall|i: int| 0 <= i < n && i != at ==> v[i] == w[i],
    ensures
        0 <= at < n ==> linear(u, v, n) - linear(u, w, n) == (u[at] as int) * ((v[at] as int) - (
        w[at] as int)),
        !(0 <= at < n) ==> linear(u, v, n) == linear(u, w, n),
    decreases n,
{
    if n > 0 {
        let k = (n - 1) as nat;
        lemma_linear_differs(u, v, w, k, at);
        if at == k {
            let (a, b, c) = (u[k as int] as int, v[k as int] as int, w[k as int] as int);
            assert(a * b - a * c == a * (b - c)) by (nonlinear_arith);
        } else {
            assert(v[k as int] == w[k as int]);
        }
    }
}

/// The sum of the products of the entries of two vectors does not depend on their order.
pub proof fn lemma_linear_symmetric(u: Seq<nat>, v: Seq<nat>, n: nat)
    ensures
        linear(u, v, n) == linear(v, u, n),
    decreases n,
{
    if n > 0 {
        lemma_linear_symmetric(u, v, (n - 1) as nat);
        assert((u[n - 1] as int) * (v[n - 1] as int) == (v[n - 1] as int) * (u[n - 1] as int))
            by (nonlinear_arith);
    }
}

} // verus!
