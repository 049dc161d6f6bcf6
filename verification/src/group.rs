//! The group: points of the curve, each standing for its exponent with respect to the generator.
use crate::field::{fadd, fmul, fneg, order, scalar_values, shorter, weighted_sum, Scalar};
use ark_ec::{AffineCurve, ProjectiveCurve};
use ark_ff::{BigInteger256, ToBytes, UniformRand};
use vstd::prelude::*;

verus! {

/// The exponent of a point with respect to the generator of the group: the integer `e` below
/// the order with `point = e * generator`. The group is cyclic of prime order, so every point
/// has exactly one.
pub uninterp spec fn discrete_log(x: Seq<u64>, y: Seq<u64>, infinity: bool) -> nat;

/// The bytes that encode the point with the given exponent.
pub uninterp spec fn point_encoding(exponent: nat) -> Seq<u8>;

/// The compressed bytes that encode the point with the given exponent.
pub uninterp spec fn compressed_encoding(exponent: nat) -> Seq<u8>;

/// The exponent of the point that compressed bytes encode, if they encode one.
pub uninterp spec fn decompressed_point(bytes: Seq<u8>) -> Option<nat>;

/// The number of bytes of the compressed encoding of a point.
pub open spec fn compressed_size() -> nat {
    32
}

/// The exponent of the point that a byte string decodes to, if it decodes to one.
pub uninterp spec fn decoded_point(bytes: Seq<u8>) -> Option<nat>;

/// A point of the group, held by its affine coordinates. Its view is its exponent with
/// respect to the generator. The coordinates cannot be set from outside: every point is made
/// by the operations below, so that it is a point of the group.
#[derive(Clone, Copy, Debug, PartialEq, Eq)]
pub struct Point {
    x: [u64; 4],
    y: [u64; 4],
    infinity: bool,
}

impl View for Point {
    type V = nat;

    closed spec fn view(&self) -> nat {
        discrete_log(self.x@, self.y@, self.infinity)
    }
}

/// The exponents of a vector of points.
pub open spec fn point_values(v: Seq<Point>) -> Seq<nat> {
    v.map_values(|p: Point| p@)
}

impl Point {
    /// The neutral element of the group.
    pub fn zero() -> (r: Point)
        ensures
            r@ == 0,
    {
        point_zero()
    }

    /// A point drawn from the random number generator.
    pub fn rand(rng: &mut rand::rngs::StdRng) -> (r: Point)
        ensures
            r@ < order(),
    {
        point_rand(rng)
    }

    /// Whether two points are the same group element.
    pub fn equals(&self, other: &Point) -> (r: bool)
        ensures
            r == (self@ == other@),
    {
        point_eq(self, other)
    }

    /// The sum of two points.
    pub fn add(&self, other: &Point) -> (r: Point)
        ensures
            r@ == fadd(self@, other@),
    {
        point_add(self, other)
    }

    /// The inverse of the point.
    pub fn neg(&self) -> (r: Point)
        ensures
            r@ == fneg(self@),
    {
        point_neg(self)
    }

    /// The point multiplied by a scalar.
    pub fn mul(&self, scalar: &Scalar) -> (r: Point)
        ensures
            r@ == fmul(scalar@, self@),
    {
        point_mul(self, scalar)
    }

    /// The byte encoding of the point.
    pub fn to_bytes(&self) -> (bytes: Vec<u8>)
        ensures
            bytes@ == point_encoding(self@),
    {
        point_bytes(self)
    }

    /// The compressed encoding of the point.
    pub fn serialize(&self) -> (bytes: Vec<u8>)
        ensures
            bytes@ == compressed_encoding(self@),
    {
        point_serialize(self)
    }

    /// The point that compressed bytes encode, if they encode a point of the group.
    pub fn deserialize(bytes: &[u8]) -> (r: Option<Point>)
        ensures
            r matches Some(p) ==> decompressed_point(bytes@) == Some(p@),
            r is None ==> decompressed_point(bytes@) is None,
    {
        point_deserialize(bytes)
    }

    /// The number of bytes of the compressed encoding of a point.
    pub fn serialized_size() -> (n: usize)
        ensures
            n == compressed_size(),
    {
        point_serialized_size()
    }

    /// The point that a string of pseudo-random bytes decodes to, if it decodes to one.
    pub fn from_random_bytes(bytes: &[u8]) -> (r: Option<Point>)
        ensures
            r matches Some(p) ==> decoded_point(bytes@) == Some(p@),
            r is None ==> decoded_point(bytes@) is None,
    {
        point_from_random_bytes(bytes)
    }
}

/// The sum of the products of scalars and bases, as far as the shorter of the two vectors goes.
pub fn multi_scalar_mul(bases: &Vec<Point>, scalars: &Vec<Scalar>) -> (r: Point)
    ensures
        r@ == weighted_sum(
            scalar_values(scalars@),
            point_values(bases@),
            shorter(bases@.len(), scalars@.len()),
        ),
{
    point_msm(bases, scalars)
}

/// `Zero::zero` of `ark_bn254::G1Affine`: the point at infinity, whose exponent is zero.
#[verifier::external_body]
fn point_zero() -> (r: Point)
    ensures
        discrete_log(r.x@, r.y@, r.infinity) == 0,
{
    let p = <ark_bn254::G1Affine as ark_ff::Zero>::zero();
    Point { x: p.x.0.0, y: p.y.0.0, infinity: p.infinity }
}

/// `UniformRand::rand` of `ark_bn254::G1Projective`, brought to affine form: some point of the
/// group; its exponent lies below the order.
#[verifier::external_body]
fn point_rand(rng: &mut rand::rngs::StdRng) -> (r: Point)
    ensures
        discrete_log(r.x@, r.y@, r.infinity) < order(),
{
    let p = ark_bn254::G1Projective::rand(rng).into_affine();
    Point { x: p.x.0.0, y: p.y.0.0, infinity: p.infinity }
}

/// `PartialEq::eq` of `ark_bn254::G1Affine`: two points are equal exactly when their exponents
/// are.
#[verifier::external_body]
fn point_eq(a: &Point, b: &Point) -> (r: bool)
    ensures
        r == (discrete_log(a.x@, a.y@, a.infinity) == discrete_log(b.x@, b.y@, b.infinity)),
{
    let p = ark_bn254::G1Affine::new(ark_bn254::Fq::new(BigInteger256(a.x)), ark_bn254::Fq::new(BigInteger256(a.y)), a.infinity);
    let q = ark_bn254::G1Affine::new(ark_bn254::Fq::new(BigInteger256(b.x)), ark_bn254::Fq::new(BigInteger256(b.y)), b.infinity);
    p == q
}

/// `Add::add` of `ark_bn254::G1Affine`: the group operation, which adds exponents modulo the
/// order.
#[verifier::external_body]
fn point_add(a: &Point, b: &Point) -> (r: Point)
    ensures
        discrete_log(r.x@, r.y@, r.infinity) == fadd(
            discrete_log(a.x@, a.y@, a.infinity),
            discrete_log(b.x@, b.y@, b.infinity),
        ),
{
    let p = ark_bn254::G1Affine::new(ark_bn254::Fq::new(BigInteger256(a.x)), ark_bn254::Fq::new(BigInteger256(a.y)), a.infinity);
    let q = ark_bn254::G1Affine::new(ark_bn254::Fq::new(BigInteger256(b.x)), ark_bn254::Fq::new(BigInteger256(b.y)), b.infinity);
    let s = p + q;
    Point { x: s.x.0.0, y: s.y.0.0, infinity: s.infinity }
}

/// `Neg::neg` of `ark_bn254::G1Affine`: the inverse in the group, which negates the exponent
/// modulo the order.
#[verifier::external_body]
fn point_neg(a: &Point) -> (r: Point)
    ensures
        discrete_log(r.x@, r.y@, r.infinity) == fneg(discrete_log(a.x@, a.y@, a.infinity)),
{
    let p = ark_bn254::G1Affine::new(ark_bn254::Fq::new(BigInteger256(a.x)), ark_bn254::Fq::new(BigInteger256(a.y)), a.infinity);
    let q = -p;
    Point { x: q.x.0.0, y: q.y.0.0, infinity: q.infinity }
}

/// `AffineCurve::mul` of `ark_bn254::G1Affine`, brought to affine form: scalar multiplication,
/// which multiplies the exponent by the scalar modulo the order.
#[verifier::external_body]
fn point_mul(a: &Point, s: &Scalar) -> (r: Point)
    ensures
        discrete_log(r.x@, r.y@, r.infinity) == fmul(s@, discrete_log(a.x@, a.y@, a.infinity)),
{
    let p = ark_bn254::G1Affine::new(ark_bn254::Fq::new(BigInteger256(a.x)), ark_bn254::Fq::new(BigInteger256(a.y)), a.infinity);
    let q = p.mul(BigInteger256(s.limbs)).into_affine();
    Point { x: q.x.0.0, y: q.y.0.0, infinity: q.infinity }
}

/// `ToBytes::write` of `ark_bn254::G1Affine` into an empty buffer: the encoding of the point,
/// which depends on the point alone.
#[verifier::external_body]
fn point_bytes(a: &Point) -> (bytes: Vec<u8>)
    ensures
        bytes@ == point_encoding(discrete_log(a.x@, a.y@, a.infinity)),
{
    let p = ark_bn254::G1Affine::new(ark_bn254::Fq::new(BigInteger256(a.x)), ark_bn254::Fq::new(BigInteger256(a.y)), a.infinity);
    let mut bytes = Vec::new();
    p.write(&mut bytes).unwrap();
    bytes
}

/// `CanonicalSerialize::serialize` of `ark_bn254::G1Affine` into an empty buffer: the
/// compressed encoding of the point, which depends on the point alone.
#[verifier::external_body]
fn point_serialize(a: &Point) -> (bytes: Vec<u8>)
    ensures
        bytes@ == compressed_encoding(discrete_log(a.x@, a.y@, a.infinity)),
{
    let p = ark_bn254::G1Affine::new(ark_bn254::Fq::new(BigInteger256(a.x)), ark_bn254::Fq::new(BigInteger256(a.y)), a.infinity);
    let mut bytes = Vec::new();
    ark_serialize::CanonicalSerialize::serialize(&p, &mut bytes).unwrap();
    bytes
}

/// `CanonicalDeserialize::deserialize` of `ark_bn254::G1Affine`: the point of the group that
/// the bytes encode, or nothing; it depends on the bytes alone.
#[verifier::external_body]
fn point_deserialize(bytes: &[u8]) -> (r: Option<Point>)
    ensures
        r matches Some(p) ==> decompressed_point(bytes@) == Some(discrete_log(p.x@, p.y@, p.infinity)),
        r is None ==> decompressed_point(bytes@) is None,
{
    match <ark_bn254::G1Affine as ark_serialize::CanonicalDeserialize>::deserialize(bytes) {
        Ok(p) => Some(Point { x: p.x.0.0, y: p.y.0.0, infinity: p.infinity }),
        Err(_) => None,
    }
}

/// `CanonicalSerialize::serialized_size` of the neutral element of `ark_bn254::G1Projective`:
/// the size of a compressed point, which is 32 bytes for this curve.
#[verifier::external_body]
fn point_serialized_size() -> (n: usize)
    ensures
        n == compressed_size(),
{
    ark_serialize::CanonicalSerialize::serialized_size(&<ark_bn254::G1Projective as ark_ff::Zero>::zero())
}

/// `AffineCurve::from_random_bytes` of `ark_bn254::G1Affine`: the point that the bytes decode
/// to, or nothing; it depends on the bytes alone.
#[verifier::external_body]
fn point_from_random_bytes(bytes: &[u8]) -> (r: Option<Point>)
    ensures
        r matches Some(p) ==> decoded_point(bytes@) == Some(discrete_log(p.x@, p.y@, p.infinity)),
        r is None ==> decoded_point(bytes@) is None,
{
    match ark_bn254::G1Affine::from_random_bytes(bytes) {
        Some(p) => Some(Point { x: p.x.0.0, y: p.y.0.0, infinity: p.infinity }),
        None => None,
    }
}

/// `VariableBaseMSM::multi_scalar_mul` of `ark_ec`, brought to affine form: the sum of the
/// products `scalars[i] * bases[i]` over the indices that both vectors have.
#[verifier::external_body]
fn point_msm(bases: &Vec<Point>, scalars: &Vec<Scalar>) -> (r: Point)
    ensures
        discrete_log(r.x@, r.y@, r.infinity) == weighted_sum(
            scalar_values(scalars@),
            point_values(bases@),
            shorter(bases@.len(), scalars@.len()),
        ),
{
    let b: Vec<ark_bn254::G1Affine> = bases.iter().map(|p| ark_bn254::G1Affine::new(ark_bn254::Fq::new(BigInteger256(p.x)), ark_bn254::Fq::new(BigInteger256(p.y)), p.infinity)).collect();
    let s: Vec<BigInteger256> = scalars.iter().map(|s| BigInteger256(s.limbs)).collect();
    let r = ark_ec::msm::VariableBaseMSM::multi_scalar_mul(&b, &s).into_affine();
    Point { x: r.x.0.0, y: r.y.0.0, infinity: r.infinity }
}

} // verus!
