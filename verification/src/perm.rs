//! Seeded, reproducible permutations of `[0, n)`.

use vstd::prelude::*;
use vstd::set_lib::{set_int_range, lemma_int_range, lemma_map_size};
use crate::util::{idxs, is_permutation, inverse_of, copy_idxs, range_vec};
use rand::SeedableRng;
use rand::seq::SliceRandom;

verus! {

broadcast use crate::util::group_idx_views, vstd::seq_lib::group_to_multiset_ensures;

/// What the seeded shuffle leaves in place of `v`: a function of the vector's
/// contents and the seed alone, in every process and on every machine.
pub uninterp spec fn shuffled(v: Seq<int>, seed: u64) -> Seq<int>;

/// Relies on rand: `StdRng::seed_from_u64` builds a generator whose output
/// stream is a function of `seed` alone, and `SliceRandom::shuffle` reorders
/// the slice in place with draws from that generator.  The outcome therefore
/// depends only on the slice's contents and `seed`, and is a rearrangement of
/// those contents.
#[verifier::external_body]
fn shuffle_seeded(v: &mut Vec<usize>, seed: u64)
    ensures
        idxs(final(v)@) == shuffled(idxs(old(v)@), seed),
        final(v)@.to_multiset() == old(v)@.to_multiset(),
{
    let mut rng = rand::rngs::StdRng::seed_from_u64(seed);
    v.as_mut_slice().shuffle(&mut rng);
}

/// The identity rearrangement of `[0, n)`.
pub open spec fn identity_seq(n: int) -> Seq<int> {
    Seq::new(n as nat, |i: int| i)
}

/// What `generate` returns: the seeded shuffle of the identity.
pub open spec fn generate_spec(n: int, seed: u64) -> Seq<int> {
    shuffled(identity_seq(n), seed)
}

/// A permutation in one-line form: position `i` holds the image of `i`.
#[derive(Debug)]
pub struct Permutation {
    v: Vec<usize>,
}

/// A permutation `p` of `[0, n)` reaches every point of `[0, n)`.
pub proof fn lemma_permutation_surjective(p: Seq<int>, j: int)
    requires
        is_permutation(p),
        0 <= j < p.len(),
    ensures
        exists|i: int| 0 <= i < p.len() && #[trigger] p[i] == j,
{
    let n = p.len() as int;
    let dom = set_int_range(0, n);
    lemma_int_range(0, n);
    let f = |i: int| p[i];
    let img = dom.map(f);
    lemma_map_size(dom, img, f);
    if !(exists|i: int| 0 <= i < p.len() && #[trigger] p[i] == j) {
        assert(!img.contains(j)) by {
            if img.contains(j) {
                let i = choose|i: int| dom.contains(i) && f(i) == j;
                assert(p[i] == j);
            }
        }
        img.lemma_subset_not_in_lt(dom, j);
        assert(false);
    }
}

impl View for Permutation {
    type V = Seq<int>;

    closed spec fn view(&self) -> Seq<int> {
        idxs(self.v@)
    }
}

impl Permutation {
    /// The array is a genuine permutation: in range and without repetition.
    pub open spec fn valid(self) -> bool {
        is_permutation(self@)
    }

    /// How many points the permutation moves.
    pub fn len(&self) -> (n: usize)
        ensures
            n == self@.len(),
    {
        self.v.len()
    }

    /// The image of `i`.
    pub fn at(&self, i: usize) -> (r: usize)
        requires
            i < self@.len(),
        ensures
            r == self@[i as int],
    {
        self.v[i]
    }

    /// The underlying array, position `i` holding the image of `i`.
    pub fn to_vec(&self) -> (r: Vec<usize>)
        ensures
            idxs(r@) == self@,
    {
        copy_idxs(&self.v)
    }

    /// The identity permutation on `[0, n)`.
    pub fn identity(n: usize) -> (r: Permutation)
        ensures
            r.valid(),
            r@.len() == n,
            r@ == identity_seq(n as int),
    {
        let v = range_vec(0, n);
        let r = Permutation { v };
        proof {
            assert(r@ =~= identity_seq(n as int));
        }
        r
    }

    /// Adopt an array as a permutation, if each of `0, .., len - 1` appears
    /// in it exactly once.
    pub fn from_vec(v: Vec<usize>) -> (r: Option<Permutation>)
        ensures
            r is Some <==> is_permutation(idxs(v@)),
            r matches Some(p) ==> p.valid() && p@ == idxs(v@),
    {
        let n = v.len();
        let mut i: usize = 0;
        while i < n
            invariant
                i <= n,
                n == v@.len(),
                forall|k: int| 0 <= k < i ==> 0 <= #[trigger] idxs(v@)[k] < n,
                forall|k: int, l: int| 0 <= k < i && 0 <= l < i && k != l ==> idxs(v@)[k] != idxs(
                    v@,
                )[l],
            decreases n - i,
        {
            if v[i] >= n {
                proof {
                    assert(idxs(v@)[i as int] >= n);
                }
                return None;
            }
            let mut j: usize = 0;
            while j < i
                invariant
                    j <= i,
                    i < n,
                    n == v@.len(),
                    forall|l: int| 0 <= l < j ==> idxs(v@)[l] != idxs(v@)[i as int],
                decreases i - j,
            {
                if v[j] == v[i] {
                    proof {
                        assert(idxs(v@)[j as int] == idxs(v@)[i as int]);
                    }
                    return None;
                }
                proof {
                    assert(idxs(v@)[j as int] != idxs(v@)[i as int]);
                }
                j = j + 1;
            }
            i = i + 1;
        }
        Some(Permutation { v })
    }

    /// A deterministic, seeded rearrangement of `[0, n)`.  The same `n` and
    /// `seed` always yield the same permutation; for `n <= 1` it is the
    /// identity.
    pub fn generate(n: usize, seed: u64) -> (r: Permutation)
        ensures
            r.valid(),
            r@.len() == n,
            r@ == generate_spec(n as int, seed),
            n <= 1 ==> r@ == identity_seq(n as int),
    {
        let mut v = range_vec(0, n);
        let ghost v0 = v@;
        proof {
            assert(idxs(v0) =~= identity_seq(n as int));
        }
        shuffle_seeded(&mut v, seed);
        proof {
            assert(v@.to_multiset().len() == v0.to_multiset().len());
            assert(v@.len() == v0.len());
            assert(v0.no_duplicates());
            v0.lemma_multiset_has_no_duplicates();
            v@.lemma_multiset_has_no_duplicates_conv();
            assert forall|k: int| 0 <= k < v@.len() implies 0 <= #[trigger] idxs(v@)[k] < n by {
                assert(v@.contains(v@[k]));
                assert(v@.to_multiset().count(v@[k]) > 0);
                assert(v0.contains(v@[k]));
                let i = choose|i: int| 0 <= i < v0.len() && v0[i] == v@[k];
                assert(v0[i] == i);
            }
            assert(is_permutation(idxs(v@)));
            if n == 1 {
                assert(idxs(v@)[0] == 0);
                assert(idxs(v@) =~= identity_seq(n as int));
            }
            if n == 0 {
                assert(idxs(v@) =~= identity_seq(n as int));
            }
        }
        Permutation { v }
    }

    /// The inverse permutation: it sends the image of `i` back to `i`.
    pub fn invert(&self) -> (r: Permutation)
        requires
            self.valid(),
        ensures
            r.valid(),
            r@.len() == self@.len(),
            inverse_of(r@, self@),
            inverse_of(self@, r@),
    {
        let n = self.v.len();
        let mut r = copy_idxs(&self.v);
        let mut i: usize = 0;
        while i < n
            invariant
                i <= n,
                n == self.v@.len(),
                is_permutation(idxs(self.v@)),
                r@.len() == n,
                forall|k: int| 0 <= k < n ==> 0 <= #[trigger] idxs(r@)[k] < n,
                forall|k: int| 0 <= k < i ==> #[trigger] idxs(r@)[idxs(self.v@)[k]] == k,
            decreases n - i,
        {
            proof {
                assert(0 <= idxs(self.v@)[i as int] < n);
            }
            let ghost r0 = r@;
            let target = self.v[i];
            r[target] = i;
            proof {
                assert(r@ == r0.update(target as int, i));
                assert forall|k: int| 0 <= k < i + 1 implies #[trigger] idxs(r@)[idxs(
                    self.v@,
                )[k]] == k by {
                    let m = idxs(self.v@)[k];
                    assert(idxs(r@)[m] == r@[m] as int);
                    if k < i {
                        assert(idxs(self.v@)[k] != idxs(self.v@)[i as int]);
                        assert(r@[m] == r0[m]);
                        assert(idxs(r0)[m] == r0[m] as int);
                    } else {
                        assert(m == target as int);
                    }
                }
                assert forall|k: int| 0 <= k < n implies 0 <= #[trigger] idxs(r@)[k] < n by {
                    assert(idxs(r@)[k] == r@[k] as int);
                    if k != target as int {
                        assert(r@[k] == r0[k]);
                        assert(idxs(r0)[k] == r0[k] as int);
                    }
                }
            }
            i = i + 1;
        }
        proof {
            let p = idxs(self.v@);
            let q = idxs(r@);
            assert forall|j: int| 0 <= j < n implies 0 <= #[trigger] q[j] < n && p[q[j]] == j by {
                lemma_permutation_surjective(p, j);
                let w = choose|w: int| 0 <= w < p.len() && #[trigger] p[w] == j;
                assert(q[p[w]] == w);
            }
            assert forall|a: int, b: int|
                0 <= a < n && 0 <= b < n && a != b implies q[a] != q[b] by {
                assert(p[q[a]] == a);
                assert(p[q[b]] == b);
            }
            assert(is_permutation(q));
            assert(inverse_of(q, p));
            assert(inverse_of(p, q));
        }
        Permutation { v: r }
    }
}

} // verus!
