//! Permutations of the indices `0, .., size - 1`.
use rand::seq::SliceRandom;
use vstd::prelude::*;

verus! {

/// Whether a mapping of indices is a permutation: it stays within its length and takes no
/// value twice.
pub open spec fn is_permutation(mapping: Seq<nat>) -> bool {
    &&& forall|i: int| 0 <= i < mapping.len() ==> #[trigger] mapping[i] < mapping.len()
    &&& forall|i: int, j: int|
        0 <= i < mapping.len() && 0 <= j < mapping.len() && i != j ==> #[trigger] mapping[i]
            != #[trigger] mapping[j]
}

/// The vector `a` rearranged by a mapping: entry `i` of the result is entry `mapping[i]` of
/// `a`.
pub open spec fn permuted<T>(a: Seq<T>, mapping: Seq<nat>) -> Seq<T> {
    Seq::new(mapping.len(), |i: int| a[mapping[i] as int])
}

/// The indices as natural numbers.
pub open spec fn indices(mapping: Seq<usize>) -> Seq<nat> {
    mapping.map_values(|v: usize| v as nat)
}

/// A permutation of the indices `0, .., size - 1`.
#[derive(Debug)]
pub struct Permutation {
    mapping: Vec<usize>,
    size: usize,
}

impl View for Permutation {
    type V = Seq<nat>;

    closed spec fn view(&self) -> Seq<nat> {
        indices(self.mapping@)
    }
}

/// `SliceRandom::shuffle` of `rand`: the slice is rearranged in place by swaps, so it holds
/// the same items as before, each as often as before.
#[verifier::external_body]
fn shuffle_indices(v: &mut Vec<usize>, rng: &mut rand::rngs::StdRng)
    ensures
        final(v)@.to_multiset() == old(v)@.to_multiset(),
{
    v.shuffle(rng);
}

/// A rearrangement of a sequence without duplicates has no duplicates, and holds the same
/// values.
proof fn lemma_rearranged(before: Seq<usize>, after: Seq<usize>)
    requires
        before.no_duplicates(),
        before.to_multiset() == after.to_multiset(),
    ensures
        after.no_duplicates(),
        after.len() == before.len(),
        forall|i: int| 0 <= i < after.len() ==> before.contains(#[trigger] after[i]),
{
    before.to_multiset_ensures();
    after.to_multiset_ensures();
    before.lemma_multiset_has_no_duplicates();
    after.lemma_multiset_has_no_duplicates_conv();
    assert forall|i: int| 0 <= i < after.len() implies before.contains(#[trigger] after[i]) by {
        assert(after.contains(after[i]));
        assert(after.to_multiset().count(after[i]) > 0);
        assert(before.to_multiset().count(after[i]) > 0);
    }
}

impl Permutation {
    #[verifier::type_invariant]
    spec fn well_formed(self) -> bool {
        self.mapping@.len() == self.size && is_permutation(indices(self.mapping@))
    }

    /// The permutation that leaves every index in place.
    pub fn identity(size: usize) -> (r: Permutation)
        ensures
            r@.len() == size,
            is_permutation(r@),
            forall|i: int| 0 <= i < size ==> #[trigger] r@[i] == i,
    {
        let mapping = Self::ascending(size);
        Permutation { mapping, size }
    }

    /// The indices `0, .., size - 1` in their order.
    fn ascending(size: usize) -> (mapping: Vec<usize>)
        ensures
            mapping@.len() == size,
            forall|i: int| 0 <= i < size ==> #[trigger] mapping@[i] == i,
    {
        let mut mapping: Vec<usize> = Vec::new();
        let mut i: usize = 0;
        while i < size
            invariant
                i <= size,
                mapping@.len() == i,
                forall|k: int| 0 <= k < i ==> #[trigger] mapping@[k] == k,
            decreases size - i,
        {
            mapping.push(i);
            i = i + 1;
        }
        mapping
    }

    /// A permutation drawn from the random number generator.
    pub fn new(rng: &mut rand::rngs::StdRng, size: usize) -> (r: Permutation)
        ensures
            r@.len() == size,
            is_permutation(r@),
    {
        let mut mapping = Self::ascending(size);
        let ghost before = mapping@;
        shuffle_indices(&mut mapping, rng);
        proof {
            lemma_rearranged(before, mapping@);
            assert forall|i: int| 0 <= i < mapping@.len() implies #[trigger] indices(mapping@)[i]
                < mapping@.len() by {
                let v = mapping@[i];
                assert(before.contains(v));
                let k = choose|k: int| 0 <= k < before.len() && before[k] == v;
                assert(before[k] == k);
            }
            assert forall|i: int, j: int|
                0 <= i < mapping@.len() && 0 <= j < mapping@.len() && i != j implies #[trigger] indices(
                mapping@,
            )[i] != #[trigger] indices(mapping@)[j] by {
                assert(mapping@[i] != mapping@[j]);
            }
        }
        Permutation { mapping, size }
    }

    /// The permutation with the given mapping, if the mapping is a permutation.
    pub fn from_mapping(mapping: Vec<usize>) -> (r: Option<Permutation>)
        ensures
            match r {
                Some(p) => p@ == indices(mapping@) && is_permutation(p@),
                None => !is_permutation(indices(mapping@)),
            },
    {
        let size = mapping.len();
        let mut seen: Vec<bool> = Vec::new();
        let mut i: usize = 0;
        while i < size
            invariant
                i <= size,
                seen@.len() == i,
                forall|k: int| 0 <= k < i ==> !(#[trigger] seen@[k]),
            decreases size - i,
        {
            seen.push(false);
            i = i + 1;
        }
        let mut i: usize = 0;
        while i < size
            invariant
                i <= size,
                size == mapping@.len(),
                seen@.len() == size,
                forall|k: int| 0 <= k < i ==> #[trigger] mapping@[k] < size,
                forall|k: int, l: int|
                    0 <= k < i && 0 <= l < i && k != l ==> #[trigger] mapping@[k]
                        != #[trigger] mapping@[l],
                forall|v: int|
                    0 <= v < size ==> (#[trigger] seen@[v] <==> exists|k: int|
                        0 <= k < i && mapping@[k] == v),
            decreases size - i,
        {
            let v = mapping[i];
            if v >= size {
                assert(!(indices(mapping@)[i as int] < mapping@.len()));
                return None;
            }
            if seen[v] {
                proof {
                    let k = choose|k: int| 0 <= k < i && mapping@[k] == v;
                    assert(indices(mapping@)[k] == indices(mapping@)[i as int]);
                }
                return None;
            }
            let ghost earlier = seen@;
            seen[v] = true;
            proof {
                assert forall|u: int| 0 <= u < size implies (#[trigger] seen@[u] <==> exists|
                    k: int,
                | 0 <= k < i + 1 && mapping@[k] == u) by {
                    if u == v {
                        assert(mapping@[i as int] == u);
                    } else {
                        assert(seen@[u] == earlier[u]);
                        if earlier[u] {
                            let k = choose|k: int| 0 <= k < i && mapping@[k] == u;
                            assert(0 <= k < i + 1 && mapping@[k] == u);
                        }
                        if exists|k: int| 0 <= k < i + 1 && mapping@[k] == u {
                            let k = choose|k: int| 0 <= k < i + 1 && mapping@[k] == u;
                            assert(k != i);
                            assert(0 <= k < i && mapping@[k] == u);
                        }
                    }
                }
                assert forall|k: int, l: int|
                    0 <= k < i + 1 && 0 <= l < i + 1 && k != l implies #[trigger] mapping@[k]
                    != #[trigger] mapping@[l] by {
                    if k == i {
                        if mapping@[l] == v {
                            assert(earlier[v as int]);
                        }
                    } else if l == i {
                        if mapping@[k] == v {
                            assert(earlier[v as int]);
                        }
                    }
                }
            }
            i = i + 1;
        }
        proof {
            assert forall|i: int, j: int|
                0 <= i < mapping@.len() && 0 <= j < mapping@.len() && i != j implies #[trigger] indices(
                mapping@,
            )[i] != #[trigger] indices(mapping@)[j] by {
                assert(mapping@[i] != mapping@[j]);
            }
            assert forall|i: int| 0 <= i < mapping@.len() implies #[trigger] indices(mapping@)[i]
                < mapping@.len() by {
                assert(mapping@[i] < size);
            }
        }
        Some(Permutation { mapping, size })
    }

    /// The number of indices that the permutation moves around.
    pub fn size(&self) -> (n: usize)
        ensures
            n == self@.len(),
            is_permutation(self@),
    {
        proof {
            use_type_invariant(self);
        }
        self.size
    }

    /// The index that takes the place of index `i`.
    pub fn get(&self, i: usize) -> (v: usize)
        requires
            i < self@.len(),
        ensures
            v == self@[i as int],
            v < self@.len(),
    {
        proof {
            use_type_invariant(self);
            assert(indices(self.mapping@)[i as int] < self.mapping@.len());
        }
        self.mapping[i]
    }

    /// The vector rearranged by the permutation: entry `i` of the result is entry `self[i]` of
    /// the input.
    pub fn permute_array<T: Copy>(&self, input_array: &Vec<T>) -> (r: Vec<T>)
        requires
            input_array@.len() == self@.len(),
        ensures
            r@ == permuted(input_array@, self@),
    {
        proof {
            use_type_invariant(self);
        }
        let mut r: Vec<T> = Vec::new();
        let mut i: usize = 0;
        while i < self.size
            invariant
                i <= self.size,
                self.mapping@.len() == self.size,
                is_permutation(indices(self.mapping@)),
                input_array@.len() == self.size,
                r@.len() == i,
                forall|k: int| 0 <= k < i ==> #[trigger] r@[k] == input_array@[self.mapping@[k] as int],
            decreases self.size - i,
        {
            assert(indices(self.mapping@)[i as int] < self.mapping@.len());
            r.push(input_array[self.mapping[i]]);
            i = i + 1;
        }
        assert(r@ =~= permuted(input_array@, self@));
        r
    }
}

} // verus!
