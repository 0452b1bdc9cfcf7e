//! Index sequences: views, copies, and comparisons.

use vstd::prelude::*;
use crate::circuit::{Obj, Arr};

verus! {

/// The mathematical view of a vector of indices.
pub open spec fn idxs(v: Seq<usize>) -> Seq<int> {
    Seq::new(v.len(), |i: int| v[i] as int)
}

/// The mathematical view of a vector of index lists.
pub open spec fn idx_lists(v: Seq<Vec<usize>>) -> Seq<Seq<int>> {
    Seq::new(v.len(), |i: int| idxs(v[i]@))
}

/// How `idxs` measures a sequence.
pub broadcast proof fn lemma_idxs_len(v: Seq<usize>)
    ensures
        #[trigger] idxs(v).len() == v.len(),
{
}

/// How `idxs` reads an element.
pub broadcast proof fn lemma_idxs_index(v: Seq<usize>, k: int)
    requires
        0 <= k < v.len(),
    ensures
        #[trigger] idxs(v)[k] == v[k] as int,
{
}

/// How `idx_lists` measures a sequence.
pub broadcast proof fn lemma_idx_lists_len(v: Seq<Vec<usize>>)
    ensures
        #[trigger] idx_lists(v).len() == v.len(),
{
}

/// How `idx_lists` reads an element.
pub broadcast proof fn lemma_idx_lists_index(v: Seq<Vec<usize>>, k: int)
    requires
        0 <= k < v.len(),
    ensures
        #[trigger] idx_lists(v)[k] == idxs(v[k]@),
{
}

/// The facts that relate vectors of indices to their mathematical views.
pub broadcast group group_idx_views {
    lemma_idxs_len,
    lemma_idxs_index,
    lemma_idx_lists_len,
    lemma_idx_lists_index,
}

/// Index sequences with the same view are the same.
pub proof fn lemma_idxs_injective(a: Seq<usize>, b: Seq<usize>)
    requires
        idxs(a) == idxs(b),
    ensures
        a == b,
{
    assert(a.len() == b.len()) by {
        assert(idxs(a).len() == a.len());
        assert(idxs(b).len() == b.len());
        assert(idxs(a).len() == idxs(b).len());
    }
    assert forall|k: int| 0 <= k < a.len() implies a[k] == b[k] by {
        assert(idxs(a)[k] == a[k] as int);
        assert(idxs(b)[k] == b[k] as int);
        assert(idxs(a)[k] == idxs(b)[k]);
    }
    assert(a =~= b);
}

/// `p` is a permutation: an in-range, injective (hence bijective) map on `[0, p.len())`.
pub open spec fn is_permutation(p: Seq<int>) -> bool {
    &&& forall|i: int| 0 <= i < p.len() ==> 0 <= #[trigger] p[i] < p.len()
    &&& forall|i: int, j: int| 0 <= i < p.len() && 0 <= j < p.len() && i != j ==> p[i] != p[j]
}

/// `q` inverts `p`: following `p` and then `q` is the identity.
pub open spec fn inverse_of(q: Seq<int>, p: Seq<int>) -> bool {
    &&& q.len() == p.len()
    &&& forall|i: int| 0 <= i < p.len() ==> 0 <= #[trigger] p[i] < p.len() && q[p[i]] == i
}

/// Copy a vector of indices.
pub fn copy_idxs(v: &Vec<usize>) -> (r: Vec<usize>)
    ensures
        r@ == v@,
{
    let mut r: Vec<usize> = Vec::new();
    let mut i: usize = 0;
    while i < v.len()
        invariant
            i <= v.len(),
            r@ == v@.subrange(0, i as int),
        decreases v.len() - i,
    {
        r.push(v[i]);
        i = i + 1;
    }
    proof {
        assert(r@ =~= v@);
    }
    r
}

/// Compare two vectors of indices.
pub fn eq_idxs(a: &Vec<usize>, b: &Vec<usize>) -> (r: bool)
    ensures
        r <==> a@ == b@,
{
    if a.len() != b.len() {
        return false;
    }
    let mut i: usize = 0;
    while i < a.len()
        invariant
            i <= a.len(),
            a@.len() == b@.len(),
            forall|k: int| 0 <= k < i ==> a@[k] == b@[k],
        decreases a.len() - i,
    {
        if a[i] != b[i] {
            return false;
        }
        i = i + 1;
    }
    proof {
        assert(a@ =~= b@);
    }
    true
}

/// Append a copy of `src` to `dst`.
pub fn extend_idxs(dst: &mut Vec<usize>, src: &Vec<usize>)
    ensures
        final(dst)@ == old(dst)@ + src@,
{
    let mut i: usize = 0;
    while i < src.len()
        invariant
            i <= src.len(),
            dst@ == old(dst)@ + src@.subrange(0, i as int),
        decreases src.len() - i,
    {
        proof {
            assert(old(dst)@ + src@.subrange(0, i as int + 1) =~= (old(dst)@ + src@.subrange(
                0,
                i as int,
            )).push(src@[i as int]));
        }
        dst.push(src[i]);
        i = i + 1;
    }
    proof {
        assert(src@.subrange(0, src@.len() as int) =~= src@);
    }
}

/// The vector `[start, start + 1, ..., start + len - 1]`.
pub fn range_vec(start: usize, len: usize) -> (r: Vec<usize>)
    requires
        start + len <= usize::MAX,
    ensures
        r@.len() == len,
        forall|k: int| 0 <= k < len ==> r@[k] == start + k,
{
    let mut r: Vec<usize> = Vec::new();
    let mut i: usize = 0;
    while i < len
        invariant
            i <= len,
            start + len <= usize::MAX,
            r@.len() == i,
            forall|k: int| 0 <= k < i ==> r@[k] == start + k,
        decreases len - i,
    {
        r.push(start + i);
        i = i + 1;
    }
    r
}

/// Every index of `s` moved up by `off`.
pub open spec fn shifted(s: Seq<int>, off: int) -> Seq<int> {
    Seq::new(s.len(), |i: int| s[i] + off)
}

/// Every index of every list of `ls` moved up by `off`.
pub open spec fn shifted_lists(ls: Seq<Seq<int>>, off: int) -> Seq<Seq<int>> {
    Seq::new(ls.len(), |j: int| shifted(ls[j], off))
}

/// Copy a vector of indices, moving each up by `off`.
pub fn shift_idxs(v: &Vec<usize>, off: usize, bound: usize) -> (r: Vec<usize>)
    requires
        forall|k: int| 0 <= k < v@.len() ==> (#[trigger] v@[k] as int) < bound,
        off + bound <= usize::MAX,
    ensures
        idxs(r@) == shifted(idxs(v@), off as int),
{
    let mut r: Vec<usize> = Vec::new();
    let mut i: usize = 0;
    while i < v.len()
        invariant
            i <= v.len(),
            forall|k: int| 0 <= k < v@.len() ==> (#[trigger] v@[k] as int) < bound,
            off + bound <= usize::MAX,
            r@.len() == i,
            forall|k: int| 0 <= k < i ==> #[trigger] r@[k] == v@[k] + off,
        decreases v.len() - i,
    {
        r.push(v[i] + off);
        i = i + 1;
    }
    proof {
        assert(idxs(r@) =~= shifted(idxs(v@), off as int));
    }
    r
}

/// `idxs` distributes over concatenation.
pub proof fn lemma_idxs_concat(a: Seq<usize>, b: Seq<usize>)
    ensures
        idxs(a + b) == idxs(a) + idxs(b),
{
    assert forall|k: int| 0 <= k < a.len() + b.len() implies idxs(a + b)[k] == (idxs(a) + idxs(
        b,
    ))[k] by {
        assert(idxs(a + b)[k] == (a + b)[k] as int);
        if k < a.len() {
            assert(idxs(a)[k] == a[k] as int);
        } else {
            assert(idxs(b)[k - a.len()] == b[k - a.len()] as int);
        }
    }
    assert(idxs(a + b) =~= idxs(a) + idxs(b));
}

/// Concatenate `a` with the lists of `b`, the latter with every index moved
/// up by `off`.
pub fn concat_shift_lists(a: &Vec<Vec<usize>>, b: &Vec<Vec<usize>>, off: usize, bound: usize) -> (r:
    Vec<Vec<usize>>)
    requires
        forall|j: int, k: int|
            0 <= j < b@.len() && 0 <= k < b@[j]@.len() ==> (#[trigger] b@[j]@[k] as int) < bound,
        off + bound <= usize::MAX,
    ensures
        idx_lists(r@) == idx_lists(a@) + shifted_lists(idx_lists(b@), off as int),
{
    let mut r = copy_lists(a);
    proof {
        assert forall|k: int| 0 <= k < a@.len() implies #[trigger] idxs(r@[k]@) == idx_lists(
            a@,
        )[k] by {
            assert(idx_lists(r@)[k] == idxs(r@[k]@));
        }
    }
    let mut j: usize = 0;
    while j < b.len()
        invariant
            j <= b@.len(),
            forall|j2: int, k: int|
                0 <= j2 < b@.len() && 0 <= k < b@[j2]@.len() ==> (#[trigger] b@[j2]@[k] as int)
                    < bound,
            off + bound <= usize::MAX,
            r@.len() == a@.len() + j,
            forall|k: int| 0 <= k < a@.len() ==> #[trigger] idxs(r@[k]@) == idx_lists(a@)[k],
            forall|k: int|
                0 <= k < j ==> #[trigger] idxs(r@[a@.len() + k]@) == shifted(
                    idx_lists(b@)[k],
                    off as int,
                ),
        decreases b@.len() - j,
    {
        let ghost r0 = r@;
        let lst = shift_idxs(&b[j], off, bound);
        r.push(lst);
        proof {
            assert forall|k: int| 0 <= k < a@.len() implies #[trigger] idxs(r@[k]@) == idx_lists(
                a@,
            )[k] by {
                assert(r@[k] == r0[k]);
            }
            assert(idx_lists(b@)[j as int] == idxs(b@[j as int]@));
            assert forall|k: int| 0 <= k < j + 1 implies #[trigger] idxs(r@[a@.len() + k]@)
                == shifted(idx_lists(b@)[k], off as int) by {
                if k < j {
                    assert(r@[a@.len() + k] == r0[a@.len() + k]);
                } else {
                    assert(r@[a@.len() + k] == lst);
                }
            }
        }
        j = j + 1;
    }
    proof {
        assert forall|k: int| 0 <= k < r@.len() implies #[trigger] idx_lists(r@)[k] == (idx_lists(
            a@,
        ) + shifted_lists(idx_lists(b@), off as int))[k] by {
            assert(idx_lists(r@)[k] == idxs(r@[k]@));
            assert(idx_lists(a@).len() == a@.len());
            assert(idx_lists(b@).len() == b@.len());
            if k >= a@.len() {
                let k2 = k - a@.len();
                assert(idxs(r@[a@.len() + k2]@) == shifted(idx_lists(b@)[k2], off as int));
            }
        }
        assert(idx_lists(r@) =~= idx_lists(a@) + shifted_lists(idx_lists(b@), off as int));
    }
    r
}

/// Copy a vector of wire types.
pub fn copy_objs(v: &Vec<Obj>) -> (r: Vec<Obj>)
    ensures
        r@ == v@,
{
    let mut r: Vec<Obj> = Vec::new();
    let mut i: usize = 0;
    while i < v.len()
        invariant
            i <= v.len(),
            r@ == v@.subrange(0, i as int),
        decreases v.len() - i,
    {
        r.push(v[i]);
        i = i + 1;
    }
    proof {
        assert(r@ =~= v@);
    }
    r
}

/// Append a copy of `src` to `dst`.
pub fn extend_objs(dst: &mut Vec<Obj>, src: &Vec<Obj>)
    ensures
        final(dst)@ == old(dst)@ + src@,
{
    let mut i: usize = 0;
    while i < src.len()
        invariant
            i <= src.len(),
            dst@ == old(dst)@ + src@.subrange(0, i as int),
        decreases src.len() - i,
    {
        proof {
            assert(old(dst)@ + src@.subrange(0, i as int + 1) =~= (old(dst)@ + src@.subrange(
                0,
                i as int,
            )).push(src@[i as int]));
        }
        dst.push(src[i]);
        i = i + 1;
    }
    proof {
        assert(src@.subrange(0, src@.len() as int) =~= src@);
    }
}

/// Copy a vector of generators.
pub fn copy_arrs(v: &Vec<Arr>) -> (r: Vec<Arr>)
    ensures
        r@ == v@,
{
    let mut r: Vec<Arr> = Vec::new();
    let mut i: usize = 0;
    while i < v.len()
        invariant
            i <= v.len(),
            r@ == v@.subrange(0, i as int),
        decreases v.len() - i,
    {
        r.push(v[i]);
        i = i + 1;
    }
    proof {
        assert(r@ =~= v@);
    }
    r
}

/// Append a copy of `src` to `dst`.
pub fn extend_arrs(dst: &mut Vec<Arr>, src: &Vec<Arr>)
    ensures
        final(dst)@ == old(dst)@ + src@,
{
    let mut i: usize = 0;
    while i < src.len()
        invariant
            i <= src.len(),
            dst@ == old(dst)@ + src@.subrange(0, i as int),
        decreases src.len() - i,
    {
        proof {
            assert(old(dst)@ + src@.subrange(0, i as int + 1) =~= (old(dst)@ + src@.subrange(
                0,
                i as int,
            )).push(src@[i as int]));
        }
        dst.push(src[i]);
        i = i + 1;
    }
    proof {
        assert(src@.subrange(0, src@.len() as int) =~= src@);
    }
}

/// Copy a vector of index lists.
pub fn copy_lists(v: &Vec<Vec<usize>>) -> (r: Vec<Vec<usize>>)
    ensures
        idx_lists(r@) == idx_lists(v@),
        r@.len() == v@.len(),
{
    let mut r: Vec<Vec<usize>> = Vec::new();
    let mut i: usize = 0;
    while i < v.len()
        invariant
            i <= v.len(),
            r@.len() == i,
            forall|k: int| 0 <= k < i ==> idx_lists(r@)[k] == idx_lists(v@)[k],
        decreases v.len() - i,
    {
        r.push(copy_idxs(&v[i]));
        i = i + 1;
    }
    proof {
        assert(idx_lists(r@) =~= idx_lists(v@));
    }
    r
}

/// Compare two vectors of wire types.
pub fn eq_objs(a: &Vec<Obj>, b: &Vec<Obj>) -> (r: bool)
    ensures
        r <==> a@ == b@,
{
    if a.len() != b.len() {
        return false;
    }
    let mut i: usize = 0;
    while i < a.len()
        invariant
            i <= a.len(),
            a@.len() == b@.len(),
            forall|k: int| 0 <= k < i ==> a@[k] == b@[k],
        decreases a.len() - i,
    {
        if a[i] != b[i] {
            return false;
        }
        i = i + 1;
    }
    proof {
        assert(a@ =~= b@);
    }
    true
}

/// Compare two vectors of generators.
pub fn eq_arrs(a: &Vec<Arr>, b: &Vec<Arr>) -> (r: bool)
    ensures
        r <==> a@ == b@,
{
    if a.len() != b.len() {
        return false;
    }
    let mut i: usize = 0;
    while i < a.len()
        invariant
            i <= a.len(),
            a@.len() == b@.len(),
            forall|k: int| 0 <= k < i ==> a@[k] == b@[k],
        decreases a.len() - i,
    {
        if a[i] != b[i] {
            return false;
        }
        i = i + 1;
    }
    proof {
        assert(a@ =~= b@);
    }
    true
}

/// Compare two vectors of index lists.
pub fn eq_lists(a: &Vec<Vec<usize>>, b: &Vec<Vec<usize>>) -> (r: bool)
    ensures
        r <==> idx_lists(a@) == idx_lists(b@),
{
    if a.len() != b.len() {
        proof {
            assert(idx_lists(a@).len() != idx_lists(b@).len());
        }
        return false;
    }
    let mut i: usize = 0;
    while i < a.len()
        invariant
            i <= a.len(),
            a@.len() == b@.len(),
            forall|k: int| 0 <= k < i ==> idx_lists(a@)[k] == idx_lists(b@)[k],
        decreases a.len() - i,
    {
        if !eq_idxs(&a[i], &b[i]) {
            proof {
                if idx_lists(a@)[i as int] == idx_lists(b@)[i as int] {
                    lemma_idxs_injective(a@[i as int]@, b@[i as int]@);
                }
                assert(idx_lists(a@)[i as int] != idx_lists(b@)[i as int]);
            }
            return false;
        }
        i = i + 1;
    }
    proof {
        assert(idx_lists(a@) =~= idx_lists(b@));
    }
    true
}

/// Rewrite every entry of `lst` through the wire renaming `ren`.
pub fn apply_ren(ren: &Vec<usize>, lst: &Vec<usize>) -> (r: Vec<usize>)
    requires
        forall|k: int| 0 <= k < lst@.len() ==> (#[trigger] lst@[k] as int) < ren@.len(),
    ensures
        r@.len() == lst@.len(),
        forall|k: int| 0 <= k < lst@.len() ==> #[trigger] r@[k] == ren@[lst@[k] as int],
{
    let mut r: Vec<usize> = Vec::new();
    let mut i: usize = 0;
    while i < lst.len()
        invariant
            i <= lst@.len(),
            forall|k: int| 0 <= k < lst@.len() ==> (#[trigger] lst@[k] as int) < ren@.len(),
            r@.len() == i,
            forall|k: int| 0 <= k < i ==> #[trigger] r@[k] == ren@[lst@[k] as int],
        decreases lst.len() - i,
    {
        r.push(ren[lst[i]]);
        i = i + 1;
    }
    r
}

} // verus!
