//! Sampling of random scalars.
use crate::field::{order, Scalar};
use vstd::prelude::*;

verus! {

/// The random number generator `rand::rngs::StdRng`, of which nothing is known.
#[verifier::external_type_specification]
#[verifier::external_body]
pub struct ExStdRng(rand::rngs::StdRng);

/// A vector of `length` scalars, each drawn from the random number generator.
pub fn sample_vector(rng: &mut rand::rngs::StdRng, length: usize) -> (v: Vec<Scalar>)
    ensures
        v@.len() == length,
        forall|i: int| 0 <= i < v@.len() ==> (#[trigger] v@[i])@ < order(),
{
    let mut v: Vec<Scalar> = Vec::new();
    let mut i: usize = 0;
    while i < length
        invariant
            i <= length,
            v@.len() == i,
            forall|j: int| 0 <= j < v@.len() ==> (#[trigger] v@[j])@ < order(),
        decreases length - i,
    {
        let s = Scalar::rand(rng);
        v.push(s);
        i = i + 1;
    }
    v
}

} // verus!
