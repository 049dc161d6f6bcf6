//! The Fiat-Shamir transcript, and the byte encodings that are absorbed into it.
use crate::field::{order, Scalar};
use crate::group::{point_encoding, point_values, Point};
use ark_ff::{PrimeField, UniformRand};
use vstd::bytes::{spec_u32_to_le_bytes, u32_to_le_bytes};
use vstd::prelude::*;
use vstd::string::StringSliceAdditionalSpecFns;

verus! {

/// A deterministic sponge: it absorbs bytes and yields challenges that depend on nothing but
/// the seed and what was absorbed and squeezed before.
#[verifier::external_body]
pub struct Transcript {
    rng: ark_marlin::rng::FiatShamirRng<blake2::Blake2s>,
}

/// The state that a transcript is in.
pub uninterp spec fn transcript_state(t: Transcript) -> Seq<u8>;

/// The state of a transcript that was just made from a seed.
pub uninterp spec fn seeded_state(seed: Seq<u8>) -> Seq<u8>;

/// The state of a transcript after it absorbed a byte string.
pub uninterp spec fn absorbed_state(state: Seq<u8>, bytes: Seq<u8>) -> Seq<u8>;

/// The challenge that a transcript yields in a given state, and the state that it is in
/// afterwards.
pub uninterp spec fn squeezed(state: Seq<u8>) -> (nat, Seq<u8>);

/// The challenge that a transcript yields in a given state.
pub open spec fn challenge(state: Seq<u8>) -> nat {
    squeezed(state).0
}

/// The state of a transcript after it yielded a challenge.
pub open spec fn squeezed_state(state: Seq<u8>) -> Seq<u8> {
    squeezed(state).1
}

impl View for Transcript {
    type V = Seq<u8>;

    closed spec fn view(&self) -> Seq<u8> {
        transcript_state(*self)
    }
}

impl Transcript {
    /// A transcript initialised with a seed.
    pub fn from_seed(seed: &[u8]) -> (t: Transcript)
        ensures
            t@ == seeded_state(seed@),
    {
        transcript_from_seed(seed)
    }

    /// Absorbs a byte string.
    pub fn absorb(&mut self, bytes: &[u8])
        ensures
            final(self)@ == absorbed_state(old(self)@, bytes@),
    {
        transcript_absorb(self, bytes)
    }

    /// Squeezes a challenge.
    pub fn squeeze_scalar(&mut self) -> (c: Scalar)
        ensures
            c@ == challenge(old(self)@),
            c@ < order(),
            final(self)@ == squeezed_state(old(self)@),
    {
        transcript_squeeze(self)
    }
}

/// `FiatShamirRng::from_seed` of `ark_marlin`, with the Blake2s digest: the state depends on
/// the seed alone.
#[verifier::external_body]
fn transcript_from_seed(seed: &[u8]) -> (t: Transcript)
    ensures
        transcript_state(t) == seeded_state(seed@),
{
    Transcript { rng: ark_marlin::rng::FiatShamirRng::from_seed(&seed) }
}

/// `FiatShamirRng::absorb` of `ark_marlin`: the new state depends on the old state and the
/// bytes alone.
#[verifier::external_body]
fn transcript_absorb(t: &mut Transcript, bytes: &[u8])
    ensures
        transcript_state(*final(t)) == absorbed_state(transcript_state(*old(t)), bytes@),
{
    t.rng.absorb(&bytes);
}

/// `UniformRand::rand` of `ark_bn254::Fr`, drawing from the transcript: the field element
/// and the new state depend on the old state alone.
#[verifier::external_body]
fn transcript_squeeze(t: &mut Transcript) -> (c: Scalar)
    ensures
        c@ == squeezed(transcript_state(*old(t))).0,
        c@ < order(),
        transcript_state(*final(t)) == squeezed(transcript_state(*old(t))).1,
{
    Scalar { limbs: ark_bn254::Fr::rand(&mut t.rng).into_repr().0 }
}

/// The bytes of a protocol label.
pub open spec fn label_encoding(label: &str) -> Seq<u8> {
    label.spec_bytes()
}

/// The four little-endian bytes of a dimension, which is taken modulo two to the power 32.
pub open spec fn dimension_encoding(d: nat) -> Seq<u8> {
    spec_u32_to_le_bytes((d % 0x1_0000_0000) as u32)
}

/// The encodings of a vector of points, one after the other.
pub open spec fn points_encoding(v: Seq<nat>) -> Seq<u8>
    decreases v.len(),
{
    if v.len() == 0 {
        Seq::empty()
    } else {
        points_encoding(v.drop_last()) + point_encoding(v.last())
    }
}

/// Appends a byte string to a buffer.
pub fn write_bytes(buf: &mut Vec<u8>, bytes: &[u8])
    ensures
        final(buf)@ == old(buf)@ + bytes@,
{
    let mut i: usize = 0;
    while i < bytes.len()
        invariant
            i <= bytes@.len(),
            buf@ == old(buf)@ + bytes@.take(i as int),
        decreases bytes@.len() - i,
    {
        buf.push(bytes[i]);
        i = i + 1;
        assert(bytes@.take(i as int) == bytes@.take(i - 1).push(bytes@[i - 1]));
    }
    assert(bytes@.take(bytes@.len() as int) == bytes@);
}

/// Appends the bytes of a protocol label to a buffer.
pub fn write_label(buf: &mut Vec<u8>, label: &str)
    ensures
        final(buf)@ == old(buf)@ + label_encoding(label),
{
    write_bytes(buf, label.as_bytes());
}

/// Appends the encoding of a dimension to a buffer.
pub fn write_dimension(buf: &mut Vec<u8>, d: usize)
    ensures
        final(buf)@ == old(buf)@ + dimension_encoding(d as nat),
{
    let low: u32 = ((d as u64) % 0x1_0000_0000) as u32;
    let bytes = u32_to_le_bytes(low);
    write_bytes(buf, bytes.as_slice());
}

/// Appends the encoding of a point to a buffer.
pub fn write_point(buf: &mut Vec<u8>, p: &Point)
    ensures
        final(buf)@ == old(buf)@ + point_encoding(p@),
{
    let bytes = p.to_bytes();
    write_bytes(buf, bytes.as_slice());
}

/// Appends the encodings of a vector of points to a buffer.
pub fn write_points(buf: &mut Vec<u8>, v: &Vec<Point>)
    ensures
        final(buf)@ == old(buf)@ + points_encoding(point_values(v@)),
{
    let mut i: usize = 0;
    while i < v.len()
        invariant
            i <= v@.len(),
            buf@ == old(buf)@ + points_encoding(point_values(v@).take(i as int)),
        decreases v@.len() - i,
    {
        write_point(buf, &v[i]);
        i = i + 1;
        assert(point_values(v@).take(i as int).drop_last() == point_values(v@).take(i - 1));
    }
    assert(point_values(v@).take(v@.len() as int) == point_values(v@));
}

} // verus!
