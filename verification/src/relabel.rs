//! Structural relabeling: apply a wire permutation and a hyperedge
//! permutation to a diagram, producing a structurally isomorphic copy.

use vstd::prelude::*;
use vstd::pervasive::unreached;
use crate::circuit::{Obj, Arr, CircuitError};
use crate::diagram::{Hypergraph, HypergraphV, OpenHypergraph, OpenHypergraphV};
use crate::diagram::{
    compose_spec, tensor_spec, composable, ren_at, ren_seq, n_fresh, fresh_labels, last_match,
    lemma_last_match, lemma_last_match_concat, lemma_last_match_shifted,
    lemma_last_match_shifted_low, lemma_n_fresh_congruent, lemma_fresh_labels_congruent,
    lemma_n_fresh_concat_high, lemma_fresh_labels_concat_high, lemma_fresh_props, lemma_fresh_at,
    lemma_tensor_spec_types,
};
use crate::util::shifted;
use crate::perm::{Permutation, generate_spec};
use crate::util::{idxs, idx_lists, is_permutation, inverse_of, apply_ren};

verus! {

broadcast use crate::util::group_idx_views;

/// Every entry of `l` pushed through the permutation `p`.
pub open spec fn perm_list(p: Seq<int>, l: Seq<int>) -> Seq<int> {
    Seq::new(l.len(), |k: int| p[l[k]])
}

/// How a relabeled hypergraph `r` arises from `h`: the wire at new index
/// `pw[i]` is the old wire `i`, the hyperedge at new index `px[j]` is the old
/// hyperedge `j`, and its wire lists are rewritten entry-wise through `pw`.
pub open spec fn relabel_rel(h: HypergraphV, r: HypergraphV, pw: Seq<int>, px: Seq<int>) -> bool {
    &&& r.w.len() == h.w.len()
    &&& r.x.len() == h.x.len()
    &&& r.s.len() == h.s.len()
    &&& r.t.len() == h.t.len()
    &&& forall|i: int| 0 <= i < h.w.len() ==> #[trigger] r.w[pw[i]] == h.w[i]
    &&& forall|j: int| 0 <= j < h.x.len() ==> #[trigger] r.x[px[j]] == h.x[j]
    &&& forall|j: int| 0 <= j < h.s.len() ==> #[trigger] r.s[px[j]] == perm_list(pw, h.s[j])
    &&& forall|j: int| 0 <= j < h.t.len() ==> #[trigger] r.t[px[j]] == perm_list(pw, h.t[j])
}

/// The label of hyperedge `j` together with the ordered types of its input
/// and output wires: what a hyperedge looks like with wire identities erased.
pub open spec fn edge_triple(hv: HypergraphV, j: int) -> (Arr, Seq<Obj>, Seq<Obj>) {
    (
        hv.x[j],
        Seq::new(hv.s[j].len(), |k: int| hv.w[hv.s[j][k]]),
        Seq::new(hv.t[j].len(), |k: int| hv.w[hv.t[j][k]]),
    )
}

/// Relabeling preserves structure: wire and hyperedge counts are unchanged,
/// and the hyperedge permutation is a bijection matching every hyperedge of
/// `h` with a hyperedge of `r` bearing the same label and the same ordered
/// input and output wire types — so the multiset of such triples is the same.
pub proof fn lemma_relabel_preserves_structure(
    h: HypergraphV,
    r: HypergraphV,
    pw: Seq<int>,
    px: Seq<int>,
)
    requires
        h.wf(),
        is_permutation(pw),
        is_permutation(px),
        pw.len() == h.w.len(),
        px.len() == h.x.len(),
        relabel_rel(h, r, pw, px),
    ensures
        r.w.len() == h.w.len(),
        r.x.len() == h.x.len(),
        forall|j: int| 0 <= j < h.x.len() ==> #[trigger] edge_triple(r, px[j]) == edge_triple(h, j),
{
    assert forall|j: int|
        0 <= j < h.x.len() implies #[trigger] edge_triple(r, px[j]) == edge_triple(h, j) by {
        assert(r.x[px[j]] == h.x[j]);
        assert(r.s[px[j]] == perm_list(pw, h.s[j]));
        assert(r.t[px[j]] == perm_list(pw, h.t[j]));
        assert forall|k: int| 0 <= k < r.s[px[j]].len() implies r.w[r.s[px[j]][k]] == h.w[h.s[j][k]] by {
            assert(0 <= h.s[j][k] < h.w.len());
            assert(r.w[pw[h.s[j][k]]] == h.w[h.s[j][k]]);
        }
        assert(Seq::new(r.s[px[j]].len(), |k: int| r.w[r.s[px[j]][k]]) =~= Seq::new(
            h.s[j].len(),
            |k: int| h.w[h.s[j][k]],
        ));
        assert forall|k: int| 0 <= k < r.t[px[j]].len() implies r.w[r.t[px[j]][k]] == h.w[h.t[j][k]] by {
            assert(0 <= h.t[j][k] < h.w.len());
            assert(r.w[pw[h.t[j][k]]] == h.w[h.t[j][k]]);
        }
        assert(Seq::new(r.t[px[j]].len(), |k: int| r.w[r.t[px[j]][k]]) =~= Seq::new(
            h.t[j].len(),
            |k: int| h.w[h.t[j][k]],
        ));
    }
}

/// Reindexing a sequence through a permutation keeps its multiset of
/// elements.
pub proof fn lemma_reindex_multiset<A>(s1: Seq<A>, s2: Seq<A>, p: Seq<int>)
    requires
        is_permutation(p),
        p.len() == s1.len(),
        p.len() == s2.len(),
        forall|j: int| 0 <= j < p.len() ==> s2[#[trigger] p[j]] == s1[j],
    ensures
        s1.to_multiset() == s2.to_multiset(),
    decreases s1.len(),
{
    broadcast use vstd::seq_lib::group_to_multiset_ensures;
    broadcast use vstd::multiset::group_multiset_axioms;

    if s1.len() > 0 {
        let n = s1.len() as int;
        let last_pos = p[n - 1];
        let s1p = s1.drop_last();
        let s2p = s2.remove(last_pos);
        let pp = Seq::new((n - 1) as nat, |j: int| if p[j] < last_pos { p[j] } else { p[j] - 1 });
        assert(is_permutation(pp)) by {
            assert forall|j: int| 0 <= j < pp.len() implies 0 <= #[trigger] pp[j] < pp.len() by {
                assert(p[j] != last_pos);
            }
            assert forall|a: int, b: int|
                0 <= a < pp.len() && 0 <= b < pp.len() && a != b implies pp[a] != pp[b] by {
                assert(p[a] != p[b]);
                assert(p[a] != last_pos);
                assert(p[b] != last_pos);
            }
        }
        assert forall|j: int| 0 <= j < pp.len() implies s2p[#[trigger] pp[j]] == s1p[j] by {
            assert(p[j] != last_pos);
            assert(s2[p[j]] == s1[j]);
            if p[j] < last_pos {
                assert(s2p[p[j]] == s2[p[j]]);
            } else {
                assert(s2p[p[j] - 1] == s2[p[j]]);
            }
        }
        lemma_reindex_multiset(s1p, s2p, pp);
        assert(s1p.to_multiset() == s1.to_multiset().remove(s1.last())) by {
            assert(s1.drop_last() =~= s1.remove(n - 1));
        }
        assert(s2p.to_multiset() == s2.to_multiset().remove(s2[last_pos]));
        assert(s2[last_pos] == s1.last());
        assert(s1.to_multiset().contains(s1.last())) by {
            assert(s1.contains(s1.last()));
        }
        assert(s2.to_multiset().contains(s1.last())) by {
            assert(s2.contains(s2[last_pos]));
        }
        assert(s1.to_multiset() =~= s2.to_multiset()) by {
            assert(s1.to_multiset().remove(s1.last()) == s2.to_multiset().remove(s1.last()));
            assert forall|e: A| s1.to_multiset().count(e) == s2.to_multiset().count(e) by {
                if e == s1.last() {
                    assert(s1.to_multiset().remove(e).count(e) == s1.to_multiset().count(e) - 1);
                    assert(s2.to_multiset().remove(e).count(e) == s2.to_multiset().count(e) - 1);
                } else {
                    assert(s1.to_multiset().remove(s1.last()).count(e) == s1.to_multiset().count(
                        e,
                    ));
                    assert(s2.to_multiset().remove(s1.last()).count(e) == s2.to_multiset().count(
                        e,
                    ));
                }
            }
        }
    } else {
        assert(s1 =~= s2);
    }
}

/// The hyperedges of a relabeled hypergraph, with wire identities erased,
/// form the same multiset of (label, input types, output types) triples.
pub proof fn lemma_relabel_triple_multiset(
    h: HypergraphV,
    r: HypergraphV,
    pw: Seq<int>,
    px: Seq<int>,
)
    requires
        h.wf(),
        is_permutation(pw),
        is_permutation(px),
        pw.len() == h.w.len(),
        px.len() == h.x.len(),
        relabel_rel(h, r, pw, px),
    ensures
        Seq::new(h.x.len(), |j: int| edge_triple(h, j)).to_multiset() == Seq::new(
            r.x.len(),
            |j: int| edge_triple(r, j),
        ).to_multiset(),
{
    lemma_relabel_preserves_structure(h, r, pw, px);
    let s1 = Seq::new(h.x.len(), |j: int| edge_triple(h, j));
    let s2 = Seq::new(r.x.len(), |j: int| edge_triple(r, j));
    assert forall|j: int| 0 <= j < px.len() implies s2[#[trigger] px[j]] == s1[j] by {
        assert(edge_triple(r, px[j]) == edge_triple(h, j));
    }
    lemma_reindex_multiset(s1, s2, px);
}

/// Relabeling by the inverse permutations undoes a relabeling exactly.
pub proof fn lemma_relabel_inverse(
    h: HypergraphV,
    r1: HypergraphV,
    r2: HypergraphV,
    pw: Seq<int>,
    px: Seq<int>,
    pwi: Seq<int>,
    pxi: Seq<int>,
)
    requires
        h.wf(),
        is_permutation(pw),
        is_permutation(px),
        pw.len() == h.w.len(),
        px.len() == h.x.len(),
        inverse_of(pwi, pw),
        inverse_of(pxi, px),
        relabel_rel(h, r1, pw, px),
        relabel_rel(r1, r2, pwi, pxi),
    ensures
        r2 == h,
{
    assert forall|i: int| 0 <= i < h.w.len() implies r2.w[i] == h.w[i] by {
        assert(r2.w[pwi[pw[i]]] == r1.w[pw[i]]);
        assert(r1.w[pw[i]] == h.w[i]);
    }
    assert(r2.w =~= h.w);
    assert forall|j: int| 0 <= j < h.x.len() implies r2.x[j] == h.x[j] by {
        assert(r2.x[pxi[px[j]]] == r1.x[px[j]]);
        assert(r1.x[px[j]] == h.x[j]);
    }
    assert(r2.x =~= h.x);
    assert forall|j: int| 0 <= j < h.s.len() implies r2.s[j] =~= h.s[j] by {
        assert(r2.s[pxi[px[j]]] == perm_list(pwi, r1.s[px[j]]));
        assert(r1.s[px[j]] == perm_list(pw, h.s[j]));
        assert forall|k: int| 0 <= k < h.s[j].len() implies perm_list(
            pwi,
            perm_list(pw, h.s[j]),
        )[k] == h.s[j][k] by {
            assert(0 <= h.s[j][k] < h.w.len());
            assert(perm_list(pw, h.s[j])[k] == pw[h.s[j][k]]);
            assert(pwi[pw[h.s[j][k]]] == h.s[j][k]);
        }
    }
    assert(r2.s =~~= h.s);
    assert forall|j: int| 0 <= j < h.t.len() implies r2.t[j] =~= h.t[j] by {
        assert(r2.t[pxi[px[j]]] == perm_list(pwi, r1.t[px[j]]));
        assert(r1.t[px[j]] == perm_list(pw, h.t[j]));
        assert forall|k: int| 0 <= k < h.t[j].len() implies perm_list(
            pwi,
            perm_list(pw, h.t[j]),
        )[k] == h.t[j][k] by {
            assert(0 <= h.t[j][k] < h.w.len());
            assert(perm_list(pw, h.t[j])[k] == pw[h.t[j][k]]);
            assert(pwi[pw[h.t[j][k]]] == h.t[j][k]);
        }
    }
    assert(r2.t =~~= h.t);
    assert(r2 =~~= h);
}

/// Relabel a hypergraph through a wire permutation and a hyperedge
/// permutation.  Fails with `ShapeMismatch` exactly when a permutation's
/// length does not match the wire or hyperedge count.
pub fn permute_hypergraph(h: &Hypergraph, pw: &Permutation, px: &Permutation) -> (r: Result<
    Hypergraph,
    CircuitError,
>)
    requires
        h@.wf(),
        pw.valid(),
        px.valid(),
    ensures
        r is Ok <==> (pw@.len() == h@.w.len() && px@.len() == h@.x.len()),
        r matches Err(e) ==> e == CircuitError::ShapeMismatch,
        r matches Ok(rh) ==> relabel_rel(h@, rh@, pw@, px@) && rh@.wf(),
{
    let n = h.w.len();
    let m = h.x.len();
    if pw.len() != n || px.len() != m {
        return Err(CircuitError::ShapeMismatch);
    }
    let pwi = pw.invert();
    let pxi = px.invert();
    let pwv = pw.to_vec();
    let mut new_w: Vec<Obj> = Vec::new();
    let mut i: usize = 0;
    while i < n
        invariant
            i <= n,
            n == h.w@.len(),
            pw.valid(),
            pw@.len() == n,
            pwi@.len() == n,
            inverse_of(pwi@, pw@),
            inverse_of(pw@, pwi@),
            is_permutation(pwi@),
            new_w@.len() == i,
            forall|k: int| 0 <= k < i ==> #[trigger] new_w@[k] == h.w@[pwi@[k]],
        decreases n - i,
    {
        proof {
            assert(0 <= pwi@[i as int] < n);
        }
        let src = pwi.at(i);
        new_w.push(h.w[src]);
        i = i + 1;
    }
    let mut new_x: Vec<Arr> = Vec::new();
    let mut j: usize = 0;
    while j < m
        invariant
            j <= m,
            m == h.x@.len(),
            px.valid(),
            px@.len() == m,
            pxi@.len() == m,
            inverse_of(pxi@, px@),
            inverse_of(px@, pxi@),
            is_permutation(pxi@),
            new_x@.len() == j,
            forall|k: int| 0 <= k < j ==> #[trigger] new_x@[k] == h.x@[pxi@[k]],
        decreases m - j,
    {
        proof {
            assert(0 <= pxi@[j as int] < m);
        }
        let src = pxi.at(j);
        new_x.push(h.x[src]);
        j = j + 1;
    }
    proof {
        assert forall|j2: int, k2: int|
            0 <= j2 < h.s@.len() && 0 <= k2 < h.s@[j2]@.len() implies (
        #[trigger] h.s@[j2]@[k2] as int) < pwv@.len() by {
            assert(idx_lists(h.s@)[j2] == idxs(h.s@[j2]@));
            assert(idxs(h.s@[j2]@)[k2] == h.s@[j2]@[k2] as int);
            assert(0 <= h@.s[j2][k2] < h@.w.len());
        }
        assert forall|j2: int, k2: int|
            0 <= j2 < h.t@.len() && 0 <= k2 < h.t@[j2]@.len() implies (
        #[trigger] h.t@[j2]@[k2] as int) < pwv@.len() by {
            assert(idx_lists(h.t@)[j2] == idxs(h.t@[j2]@));
            assert(idxs(h.t@[j2]@)[k2] == h.t@[j2]@[k2] as int);
            assert(0 <= h@.t[j2][k2] < h@.w.len());
        }
    }
    let mut new_s: Vec<Vec<usize>> = Vec::new();
    let mut j: usize = 0;
    while j < m
        invariant
            j <= m,
            m == h.s@.len(),
            m == h.x@.len(),
            h@.wf(),
            pw.valid(),
            pw@.len() == h@.w.len(),
            idxs(pwv@) == pw@,
            pxi@.len() == m,
            inverse_of(pxi@, px@),
            inverse_of(px@, pxi@),
            is_permutation(pxi@),
            forall|j2: int, k2: int|
                0 <= j2 < h.s@.len() && 0 <= k2 < h.s@[j2]@.len() ==> (
            #[trigger] h.s@[j2]@[k2] as int) < pwv@.len(),
            new_s@.len() == j,
            forall|k: int|
                0 <= k < j ==> #[trigger] idxs(new_s@[k]@) == perm_list(
                    pw@,
                    idx_lists(h.s@)[pxi@[k]],
                ),
        decreases m - j,
    {
        proof {
            assert(0 <= pxi@[j as int] < m);
        }
        let src = pxi.at(j);
        let ghost s0 = new_s@;
        let lst = apply_ren(&pwv, &h.s[src]);
        new_s.push(lst);
        proof {
            let srcv = pxi@[j as int];
            assert(idx_lists(h.s@)[srcv] == idxs(h.s@[srcv]@));
            assert forall|k2: int| 0 <= k2 < lst@.len() implies idxs(lst@)[k2] == perm_list(
                pw@,
                idx_lists(h.s@)[srcv],
            )[k2] by {
                assert(lst@[k2] == pwv@[h.s@[srcv]@[k2] as int]);
                assert(idxs(lst@)[k2] == lst@[k2] as int);
                assert(idxs(pwv@)[h.s@[srcv]@[k2] as int] == pwv@[h.s@[srcv]@[k2] as int] as int);
                assert(idxs(h.s@[srcv]@)[k2] == h.s@[srcv]@[k2] as int);
            }
            assert(idxs(lst@) =~= perm_list(pw@, idx_lists(h.s@)[srcv]));
            assert forall|k: int| 0 <= k < j + 1 implies #[trigger] idxs(new_s@[k]@) == perm_list(
                pw@,
                idx_lists(h.s@)[pxi@[k]],
            ) by {
                if k < j {
                    assert(new_s@[k] == s0[k]);
                } else {
                    assert(new_s@[k] == lst);
                }
            }
        }
        j = j + 1;
    }
    let mut new_t: Vec<Vec<usize>> = Vec::new();
    let mut j: usize = 0;
    while j < m
        invariant
            j <= m,
            m == h.t@.len(),
            m == h.x@.len(),
            h@.wf(),
            pw.valid(),
            pw@.len() == h@.w.len(),
            idxs(pwv@) == pw@,
            pxi@.len() == m,
            inverse_of(pxi@, px@),
            inverse_of(px@, pxi@),
            is_permutation(pxi@),
            forall|j2: int, k2: int|
                0 <= j2 < h.t@.len() && 0 <= k2 < h.t@[j2]@.len() ==> (
            #[trigger] h.t@[j2]@[k2] as int) < pwv@.len(),
            new_t@.len() == j,
            forall|k: int|
                0 <= k < j ==> #[trigger] idxs(new_t@[k]@) == perm_list(
                    pw@,
                    idx_lists(h.t@)[pxi@[k]],
                ),
        decreases m - j,
    {
        proof {
            assert(0 <= pxi@[j as int] < m);
        }
        let src = pxi.at(j);
        let ghost t0 = new_t@;
        let lst = apply_ren(&pwv, &h.t[src]);
        new_t.push(lst);
        proof {
            let srcv = pxi@[j as int];
            assert(idx_lists(h.t@)[srcv] == idxs(h.t@[srcv]@));
            assert forall|k2: int| 0 <= k2 < lst@.len() implies idxs(lst@)[k2] == perm_list(
                pw@,
                idx_lists(h.t@)[srcv],
            )[k2] by {
                assert(lst@[k2] == pwv@[h.t@[srcv]@[k2] as int]);
                assert(idxs(lst@)[k2] == lst@[k2] as int);
                assert(idxs(pwv@)[h.t@[srcv]@[k2] as int] == pwv@[h.t@[srcv]@[k2] as int] as int);
                assert(idxs(h.t@[srcv]@)[k2] == h.t@[srcv]@[k2] as int);
            }
            assert(idxs(lst@) =~= perm_list(pw@, idx_lists(h.t@)[srcv]));
            assert forall|k: int| 0 <= k < j + 1 implies #[trigger] idxs(new_t@[k]@) == perm_list(
                pw@,
                idx_lists(h.t@)[pxi@[k]],
            ) by {
                if k < j {
                    assert(new_t@[k] == t0[k]);
                } else {
                    assert(new_t@[k] == lst);
                }
            }
        }
        j = j + 1;
    }
    let rh = Hypergraph { w: new_w, x: new_x, s: new_s, t: new_t };
    proof {
        let hv = h@;
        let rv = rh@;
        assert forall|i2: int| 0 <= i2 < hv.w.len() implies #[trigger] rv.w[pw@[i2]] == hv.w[i2] by {
            assert(0 <= pw@[i2] < hv.w.len());
            assert(new_w@[pw@[i2]] == h.w@[pwi@[pw@[i2]]]);
            assert(pwi@[pw@[i2]] == i2);
        }
        assert forall|j2: int| 0 <= j2 < hv.x.len() implies #[trigger] rv.x[px@[j2]] == hv.x[j2] by {
            assert(0 <= px@[j2] < hv.x.len());
            assert(new_x@[px@[j2]] == h.x@[pxi@[px@[j2]]]);
            assert(pxi@[px@[j2]] == j2);
        }
        assert forall|j2: int| 0 <= j2 < hv.s.len() implies #[trigger] rv.s[px@[j2]] == perm_list(
            pw@,
            hv.s[j2],
        ) by {
            assert(0 <= px@[j2] < hv.s.len());
            assert(idx_lists(new_s@)[px@[j2]] == idxs(new_s@[px@[j2]]@));
            assert(idxs(new_s@[px@[j2]]@) == perm_list(pw@, idx_lists(h.s@)[pxi@[px@[j2]]]));
            assert(pxi@[px@[j2]] == j2);
        }
        assert forall|j2: int| 0 <= j2 < hv.t.len() implies #[trigger] rv.t[px@[j2]] == perm_list(
            pw@,
            hv.t[j2],
        ) by {
            assert(0 <= px@[j2] < hv.t.len());
            assert(idx_lists(new_t@)[px@[j2]] == idxs(new_t@[px@[j2]]@));
            assert(idxs(new_t@[px@[j2]]@) == perm_list(pw@, idx_lists(h.t@)[pxi@[px@[j2]]]));
            assert(pxi@[px@[j2]] == j2);
        }
        assert(relabel_rel(hv, rv, pw@, px@));
        // Well-formedness of the relabeled hypergraph.
        assert forall|j2: int| 0 <= j2 < rv.x.len() implies (#[trigger] rv.s[j2]).len()
            == rv.x[j2].arity() by {
            let j0 = pxi@[j2];
            assert(0 <= j0 < hv.x.len());
            assert(px@[j0] == j2);
            assert(rv.s[px@[j0]] == perm_list(pw@, hv.s[j0]));
            assert(rv.x[px@[j0]] == hv.x[j0]);
        }
        assert forall|j2: int| 0 <= j2 < rv.x.len() implies (#[trigger] rv.t[j2]).len()
            == rv.x[j2].coarity() by {
            let j0 = pxi@[j2];
            assert(0 <= j0 < hv.x.len());
            assert(px@[j0] == j2);
            assert(rv.t[px@[j0]] == perm_list(pw@, hv.t[j0]));
            assert(rv.x[px@[j0]] == hv.x[j0]);
        }
        assert forall|j2: int, k2: int|
            0 <= j2 < rv.s.len() && 0 <= k2 < rv.s[j2].len() implies 0 <= #[trigger] rv.s[j2][k2]
            < rv.w.len() by {
            let j0 = pxi@[j2];
            assert(0 <= j0 < hv.x.len());
            assert(px@[j0] == j2);
            assert(rv.s[px@[j0]] == perm_list(pw@, hv.s[j0]));
            assert(0 <= hv.s[j0][k2] < hv.w.len());
            assert(rv.s[j2][k2] == pw@[hv.s[j0][k2]]);
        }
        assert forall|j2: int, k2: int|
            0 <= j2 < rv.t.len() && 0 <= k2 < rv.t[j2].len() implies 0 <= #[trigger] rv.t[j2][k2]
            < rv.w.len() by {
            let j0 = pxi@[j2];
            assert(0 <= j0 < hv.x.len());
            assert(px@[j0] == j2);
            assert(rv.t[px@[j0]] == perm_list(pw@, hv.t[j0]));
            assert(0 <= hv.t[j0][k2] < hv.w.len());
            assert(rv.t[j2][k2] == pw@[hv.t[j0][k2]]);
        }
        assert(rv.wf());
    }
    Ok(rh)
}

/// Relabel a diagram: its hypergraph as `permute_hypergraph` does, and each
/// boundary entry rewritten through the wire permutation.  Boundary order is
/// kept: position `i` of each boundary still describes the same external leg.
pub fn permute_open_hypergraph(oh: &OpenHypergraph, pw: &Permutation, px: &Permutation) -> (r:
    Result<OpenHypergraph, CircuitError>)
    requires
        oh@.wf(),
        pw.valid(),
        px.valid(),
    ensures
        r is Ok <==> (pw@.len() == oh@.h.w.len() && px@.len() == oh@.h.x.len()),
        r matches Err(e) ==> e == CircuitError::ShapeMismatch,
        r matches Ok(ro) ==> {
            &&& relabel_rel(oh@.h, ro@.h, pw@, px@)
            &&& ro@.s == perm_list(pw@, oh@.s)
            &&& ro@.t == perm_list(pw@, oh@.t)
            &&& ro@.wf()
        },
{
    let rh = match permute_hypergraph(&oh.h, pw, px) {
        Ok(rh) => rh,
        Err(e) => {
            return Err(e);
        },
    };
    let pwv = pw.to_vec();
    proof {
        assert forall|k: int| 0 <= k < oh.s@.len() implies (#[trigger] oh.s@[k] as int)
            < pwv@.len() by {
            assert(idxs(oh.s@)[k] == oh.s@[k] as int);
            assert(0 <= oh@.s[k] < oh@.h.w.len());
        }
        assert forall|k: int| 0 <= k < oh.t@.len() implies (#[trigger] oh.t@[k] as int)
            < pwv@.len() by {
            assert(idxs(oh.t@)[k] == oh.t@[k] as int);
            assert(0 <= oh@.t[k] < oh@.h.w.len());
        }
    }
    let new_s = apply_ren(&pwv, &oh.s);
    let new_t = apply_ren(&pwv, &oh.t);
    let ro = OpenHypergraph { s: new_s, t: new_t, h: rh };
    proof {
        assert forall|k: int| 0 <= k < oh@.s.len() implies idxs(new_s@)[k] == perm_list(
            pw@,
            oh@.s,
        )[k] by {
            assert(new_s@[k] == pwv@[oh.s@[k] as int]);
            assert(idxs(new_s@)[k] == new_s@[k] as int);
            assert(idxs(pwv@)[oh.s@[k] as int] == pwv@[oh.s@[k] as int] as int);
            assert(idxs(oh.s@)[k] == oh.s@[k] as int);
        }
        assert(ro@.s =~= perm_list(pw@, oh@.s));
        assert forall|k: int| 0 <= k < oh@.t.len() implies idxs(new_t@)[k] == perm_list(
            pw@,
            oh@.t,
        )[k] by {
            assert(new_t@[k] == pwv@[oh.t@[k] as int]);
            assert(idxs(new_t@)[k] == new_t@[k] as int);
            assert(idxs(pwv@)[oh.t@[k] as int] == pwv@[oh.t@[k] as int] as int);
            assert(idxs(oh.t@)[k] == oh.t@[k] as int);
        }
        assert(ro@.t =~= perm_list(pw@, oh@.t));
        assert forall|i: int| 0 <= i < ro@.s.len() implies 0 <= #[trigger] ro@.s[i]
            < ro@.h.w.len() by {
            assert(ro@.s[i] == pw@[oh@.s[i]]);
            assert(0 <= oh@.s[i] < oh@.h.w.len());
        }
        assert forall|i: int| 0 <= i < ro@.t.len() implies 0 <= #[trigger] ro@.t[i]
            < ro@.h.w.len() by {
            assert(ro@.t[i] == pw@[oh@.t[i]]);
            assert(0 <= oh@.t[i] < oh@.h.w.len());
        }
        assert(ro@.wf());
    }
    Ok(ro)
}

/// The seed used for the hyperedge permutation, one past the wire seed.
pub open spec fn next_seed(seed: u64) -> u64 {
    if seed == u64::MAX {
        0u64
    } else {
        (seed + 1) as u64
    }
}

/// A structurally isomorphic copy of `term`: wires and hyperedges are
/// relabeled by two permutations generated from `seed` and `seed + 1`, so the
/// result is reproducible from the arguments alone.
pub fn random_isomorphic(term: &OpenHypergraph, seed: u64) -> (r: OpenHypergraph)
    requires
        term@.wf(),
    ensures
        r@.wf(),
        relabel_rel(
            term@.h,
            r@.h,
            generate_spec(term@.h.w.len() as int, seed),
            generate_spec(term@.h.x.len() as int, next_seed(seed)),
        ),
        r@.s == perm_list(generate_spec(term@.h.w.len() as int, seed), term@.s),
        r@.t == perm_list(generate_spec(term@.h.w.len() as int, seed), term@.t),
{
    let seed2: u64 = if seed == u64::MAX {
        0
    } else {
        seed + 1
    };
    let pw = Permutation::generate(term.h.w.len(), seed);
    let px = Permutation::generate(term.h.x.len(), seed2);
    match permute_open_hypergraph(term, &pw, &px) {
        Ok(r) => r,
        Err(_) => unreached(),
    }
}

/// The permutation of `[0, n1 + n2 + n3 + n4)` that swaps the second and
/// third blocks, keeping each block's internal order.
pub open spec fn block_swap(n1: int, n2: int, n3: int, n4: int) -> Seq<int> {
    Seq::new(
        (n1 + n2 + n3 + n4) as nat,
        |i: int|
            if i < n1 {
                i
            } else if i < n1 + n2 {
                i + n3
            } else if i < n1 + n2 + n3 {
                i - n2
            } else {
                i
            },
    )
}

/// `block_swap` is a permutation.
pub proof fn lemma_block_swap_perm(n1: int, n2: int, n3: int, n4: int)
    requires
        0 <= n1,
        0 <= n2,
        0 <= n3,
        0 <= n4,
    ensures
        is_permutation(block_swap(n1, n2, n3, n4)),
        block_swap(n1, n2, n3, n4).len() == n1 + n2 + n3 + n4,
{
    let p = block_swap(n1, n2, n3, n4);
    assert forall|i: int| 0 <= i < p.len() implies 0 <= #[trigger] p[i] < p.len() by {}
    assert forall|i: int, j: int|
        0 <= i < p.len() && 0 <= j < p.len() && i != j implies p[i] != p[j] by {}
}

/// The boundary of a parallel pair marks a wire of its first part exactly as
/// the first part's own boundary does.
proof fn lemma_pair_marks_low(gsb: Seq<int>, ksb: Seq<int>, ng: int, u: int)
    requires
        forall|x: int| 0 <= x < ksb.len() ==> 0 <= #[trigger] ksb[x],
        u < ng,
    ensures
        last_match(gsb + shifted(ksb, ng), u) == last_match(gsb, u),
{
    lemma_last_match_concat(gsb, shifted(ksb, ng), u);
    lemma_last_match_shifted_low(ksb, ng, u);
}

/// Gluing a parallel pair onto a parallel pair renames a wire of the first
/// upper diagram as gluing the two first diagrams alone would, moved past the
/// lower diagrams by the block swap.
proof fn lemma_interchange_ren_low(
    f: OpenHypergraphV,
    g: OpenHypergraphV,
    h: OpenHypergraphV,
    k: OpenHypergraphV,
    e: int,
)
    requires
        f.wf(),
        g.wf(),
        h.wf(),
        k.wf(),
        composable(f, g),
        composable(h, k),
        0 <= e < g.h.w.len(),
    ensures
        ren_at(
            f.t + shifted(h.t, f.h.w.len() as int),
            g.s + shifted(k.s, g.h.w.len() as int),
            f.h.w.len() as int + h.h.w.len() as int,
            e,
        ) == block_swap(
            f.h.w.len() as int,
            n_fresh(g.s, g.h.w.len() as int),
            h.h.w.len() as int,
            n_fresh(k.s, k.h.w.len() as int),
        )[ren_at(f.t, g.s, f.h.w.len() as int, e)],
{
    let nf = f.h.w.len() as int;
    let ng = g.h.w.len() as int;
    let nh = h.h.w.len() as int;
    let nk = k.h.w.len() as int;
    let fg_fresh = n_fresh(g.s, ng);
    let hk_fresh = n_fresh(k.s, nk);
    let bb = g.s + shifted(k.s, ng);
    let tt = f.t + shifted(h.t, nf);
    let pw = block_swap(nf, fg_fresh, nh, hk_fresh);
    assert forall|x: int| 0 <= x < k.s.len() implies 0 <= #[trigger] k.s[x] by {}
    lemma_pair_marks_low(g.s, k.s, ng, e);
    let lm = last_match(g.s, e);
    lemma_last_match(g.s, e);
    lemma_fresh_props(g.h.w, g.s, ng);
    lemma_fresh_props(k.h.w, k.s, nk);
    if lm >= 0 {
        assert(g.s.len() == f.t.len()) by {
            assert(f.t_types().len() == g.s_types().len());
        }
        assert(tt[lm] == f.t[lm]);
        assert(0 <= f.t[lm] < nf);
        assert(pw[f.t[lm]] == f.t[lm]);
    } else {
        assert forall|u: int|
            0 <= u < e implies (last_match(bb, u) == -1 <==> #[trigger] last_match(g.s, u)
                == -1) by {
            lemma_pair_marks_low(g.s, k.s, ng, u);
        }
        lemma_n_fresh_congruent(bb, g.s, e);
        lemma_fresh_at(g.h.w, g.s, e, ng);
        assert(ren_at(tt, bb, nf + nh, e) == nf + nh + n_fresh(g.s, e));
        assert(ren_at(f.t, g.s, nf, e) == nf + n_fresh(g.s, e));
        assert(nf <= nf + n_fresh(g.s, e) < nf + fg_fresh);
        assert(pw[nf + n_fresh(g.s, e)] == nf + n_fresh(g.s, e) + nh);
    }
}

/// The same, for a wire of the second upper diagram: it is renamed as gluing
/// the two second diagrams alone would, then placed by the block swap.
proof fn lemma_interchange_ren_high(
    f: OpenHypergraphV,
    g: OpenHypergraphV,
    h: OpenHypergraphV,
    k: OpenHypergraphV,
    e: int,
)
    requires
        f.wf(),
        g.wf(),
        h.wf(),
        k.wf(),
        composable(f, g),
        composable(h, k),
        0 <= e < k.h.w.len(),
    ensures
        ren_at(
            f.t + shifted(h.t, f.h.w.len() as int),
            g.s + shifted(k.s, g.h.w.len() as int),
            f.h.w.len() as int + h.h.w.len() as int,
            g.h.w.len() + e,
        ) == block_swap(
            f.h.w.len() as int,
            n_fresh(g.s, g.h.w.len() as int),
            h.h.w.len() as int,
            n_fresh(k.s, k.h.w.len() as int),
        )[ren_at(h.t, k.s, h.h.w.len() as int, e) + f.h.w.len() as int + n_fresh(
            g.s,
            g.h.w.len() as int,
        )],
{
    let nf = f.h.w.len() as int;
    let ng = g.h.w.len() as int;
    let nh = h.h.w.len() as int;
    let nk = k.h.w.len() as int;
    let fg_fresh = n_fresh(g.s, ng);
    let hk_fresh = n_fresh(k.s, nk);
    let bb = g.s + shifted(k.s, ng);
    let tt = f.t + shifted(h.t, nf);
    let pw = block_swap(nf, fg_fresh, nh, hk_fresh);
    lemma_last_match_concat(g.s, shifted(k.s, ng), ng + e);
    assert(last_match(shifted(k.s, ng), ng + e) == last_match(k.s, e)) by {
        lemma_last_match_shifted(k.s, ng, e);
    }
    let lmk = last_match(k.s, e);
    lemma_last_match(k.s, e);
    lemma_last_match(g.s, ng + e);
    if last_match(g.s, ng + e) >= 0 {
        assert(g.s[last_match(g.s, ng + e)] == ng + e);
    }
    lemma_fresh_props(g.h.w, g.s, ng);
    lemma_fresh_props(k.h.w, k.s, nk);
    if lmk >= 0 {
        assert(last_match(bb, ng + e) == g.s.len() + lmk);
        assert(g.s.len() == f.t.len()) by {
            assert(f.t_types().len() == g.s_types().len());
        }
        assert(k.s.len() == h.t.len()) by {
            assert(h.t_types().len() == k.s_types().len());
        }
        assert(tt[f.t.len() + lmk] == shifted(h.t, nf)[lmk]);
        assert(ren_at(tt, bb, nf + nh, ng + e) == h.t[lmk] + nf);
        assert(ren_at(h.t, k.s, nh, e) == h.t[lmk]);
        assert(0 <= h.t[lmk] < nh);
        assert(nf + fg_fresh <= h.t[lmk] + nf + fg_fresh < nf + fg_fresh + nh);
        assert(pw[h.t[lmk] + nf + fg_fresh] == h.t[lmk] + nf);
    } else {
        assert(last_match(bb, ng + e) == -1);
        assert forall|u: int|
            0 <= u < ng implies (last_match(bb, u) == -1 <==> #[trigger] last_match(g.s, u)
                == -1) by {
            lemma_pair_marks_low(g.s, k.s, ng, u);
        }
        lemma_n_fresh_congruent(bb, g.s, ng);
        assert forall|x: int| 0 <= x < g.s.len() implies 0 <= #[trigger] g.s[x] < ng by {}
        assert forall|x: int| 0 <= x < k.s.len() implies 0 <= #[trigger] k.s[x] by {}
        lemma_n_fresh_concat_high(g.s, k.s, ng, e);
        assert(ren_at(tt, bb, nf + nh, ng + e) == nf + nh + fg_fresh + n_fresh(k.s, e));
        lemma_fresh_at(k.h.w, k.s, e, nk);
        assert(ren_at(h.t, k.s, nh, e) == nh + n_fresh(k.s, e));
        let v = nh + n_fresh(k.s, e) + nf + fg_fresh;
        assert(nf + fg_fresh + nh <= v < nf + fg_fresh + nh + hk_fresh);
        assert(pw[v] == v);
    }
}

/// The wire permutation that aligns the two sides of the interchange law:
/// the middle two blocks — the first composite's fresh wires and the second
/// pair's upper wires — change places.
pub open spec fn interchange_wire_perm(
    f: OpenHypergraphV,
    g: OpenHypergraphV,
    h: OpenHypergraphV,
    k: OpenHypergraphV,
) -> Seq<int> {
    block_swap(
        f.h.w.len() as int,
        n_fresh(g.s, g.h.w.len() as int),
        h.h.w.len() as int,
        n_fresh(k.s, k.h.w.len() as int),
    )
}

/// The hyperedge permutation that aligns the two sides of the interchange
/// law.
pub open spec fn interchange_edge_perm(
    f: OpenHypergraphV,
    g: OpenHypergraphV,
    h: OpenHypergraphV,
    k: OpenHypergraphV,
) -> Seq<int> {
    block_swap(f.h.x.len() as int, g.h.x.len() as int, h.h.x.len() as int, k.h.x.len() as int)
}

/// The interchange law, up to relabeling: composing two diagrams placed side
/// by side with two more builds, after the block permutations above relabel
/// its wires and hyperedges, exactly the side-by-side placement of the two
/// composites; the boundaries correspond position for position through the
/// wire permutation.
#[verifier::rlimit(100)]
pub proof fn lemma_interchange(
    f: OpenHypergraphV,
    g: OpenHypergraphV,
    h: OpenHypergraphV,
    k: OpenHypergraphV,
)
    requires
        f.wf(),
        g.wf(),
        h.wf(),
        k.wf(),
        composable(f, g),
        composable(h, k),
    ensures
        composable(tensor_spec(f, h), tensor_spec(g, k)),
        is_permutation(interchange_wire_perm(f, g, h, k)),
        is_permutation(interchange_edge_perm(f, g, h, k)),
        interchange_wire_perm(f, g, h, k).len() == tensor_spec(
            compose_spec(f, g),
            compose_spec(h, k),
        ).h.w.len(),
        interchange_edge_perm(f, g, h, k).len() == tensor_spec(
            compose_spec(f, g),
            compose_spec(h, k),
        ).h.x.len(),
        relabel_rel(
            tensor_spec(compose_spec(f, g), compose_spec(h, k)).h,
            compose_spec(tensor_spec(f, h), tensor_spec(g, k)).h,
            interchange_wire_perm(f, g, h, k),
            interchange_edge_perm(f, g, h, k),
        ),
        compose_spec(tensor_spec(f, h), tensor_spec(g, k)).s == perm_list(
            interchange_wire_perm(f, g, h, k),
            tensor_spec(compose_spec(f, g), compose_spec(h, k)).s,
        ),
        compose_spec(tensor_spec(f, h), tensor_spec(g, k)).t == perm_list(
            interchange_wire_perm(f, g, h, k),
            tensor_spec(compose_spec(f, g), compose_spec(h, k)).t,
        ),
{
    let nf = f.h.w.len() as int;
    let ng = g.h.w.len() as int;
    let nh = h.h.w.len() as int;
    let nk = k.h.w.len() as int;
    let mf = f.h.x.len() as int;
    let mg = g.h.x.len() as int;
    let mh = h.h.x.len() as int;
    let mk = k.h.x.len() as int;
    let fg_fresh = n_fresh(g.s, ng);
    let hk_fresh = n_fresh(k.s, nk);
    let bb = g.s + shifted(k.s, ng);
    let tt = f.t + shifted(h.t, nf);
    let pw = interchange_wire_perm(f, g, h, k);
    let px = interchange_edge_perm(f, g, h, k);
    let fg = compose_spec(f, g);
    let hk = compose_spec(h, k);
    let fh = tensor_spec(f, h);
    let gk = tensor_spec(g, k);
    let l = tensor_spec(fg, hk);
    let r = compose_spec(fh, gk);
    lemma_tensor_spec_types(f, h);
    lemma_tensor_spec_types(g, k);
    assert(composable(fh, gk));
    lemma_fresh_props(g.h.w, g.s, ng);
    lemma_fresh_props(k.h.w, k.s, nk);
    let frg = fresh_labels(g.h.w, g.s, ng);
    let frk = fresh_labels(k.h.w, k.s, nk);
    assert forall|x: int| 0 <= x < g.s.len() implies 0 <= #[trigger] g.s[x] < ng by {}
    assert forall|x: int| 0 <= x < k.s.len() implies 0 <= #[trigger] k.s[x] by {}
    assert forall|u: int|
        0 <= u < ng implies (last_match(bb, u) == -1 <==> #[trigger] last_match(g.s, u)
            == -1) by {
        lemma_pair_marks_low(g.s, k.s, ng, u);
    }
    lemma_n_fresh_congruent(bb, g.s, ng);
    assert forall|u: int| 0 <= u < ng implies (g.h.w + k.h.w)[u] == #[trigger] g.h.w[u] by {}
    lemma_fresh_labels_congruent(g.h.w + k.h.w, bb, g.h.w, g.s, ng);
    lemma_n_fresh_concat_high(g.s, k.s, ng, nk);
    lemma_fresh_labels_concat_high(g.h.w, k.h.w, g.s, k.s, nk);
    assert(gk.s == bb);
    assert(fh.t == tt);
    assert(gk.h.w == g.h.w + k.h.w);
    assert(gk.h.w.len() as int == ng + nk);
    assert(fh.h.w.len() as int == nf + nh);
    assert(n_fresh(bb, ng + nk) == fg_fresh + hk_fresh);
    assert(fresh_labels(gk.h.w, gk.s, gk.h.w.len() as int) == frg + frk);
    assert(fg.h.w == f.h.w + frg);
    assert(hk.h.w == h.h.w + frk);
    assert(fg.h.w.len() as int == nf + fg_fresh);
    assert(l.h.w == (f.h.w + frg) + (h.h.w + frk));
    assert(r.h.w == (f.h.w + h.h.w) + (frg + frk));
    assert(l.h.w.len() == nf + fg_fresh + nh + hk_fresh);
    assert(r.h.w.len() == nf + nh + (fg_fresh + hk_fresh));
    lemma_block_swap_perm(nf, fg_fresh, nh, hk_fresh);
    lemma_block_swap_perm(mf, mg, mh, mk);
    assert(l.h.x == (f.h.x + g.h.x) + (h.h.x + k.h.x));
    assert(r.h.x == (f.h.x + h.h.x) + (g.h.x + k.h.x));
    assert(pw.len() == l.h.w.len());
    assert(px.len() == l.h.x.len());
    // Wire labels.
    assert forall|i: int| 0 <= i < l.h.w.len() implies #[trigger] r.h.w[pw[i]] == l.h.w[i] by {
        if i < nf {
            assert(pw[i] == i);
        } else if i < nf + fg_fresh {
            assert(pw[i] == i + nh);
        } else if i < nf + fg_fresh + nh {
            assert(pw[i] == i - fg_fresh);
        } else {
            assert(pw[i] == i);
        }
    }
    // Hyperedge labels.
    assert forall|j: int| 0 <= j < l.h.x.len() implies #[trigger] r.h.x[px[j]] == l.h.x[j] by {
        if j < mf {
            assert(px[j] == j);
        } else if j < mf + mg {
            assert(px[j] == j + mh);
        } else if j < mf + mg + mh {
            assert(px[j] == j - mg);
        } else {
            assert(px[j] == j);
        }
    }
    // Hyperedge wire lists, inputs then outputs.
    assert forall|j: int| 0 <= j < l.h.s.len() implies #[trigger] r.h.s[px[j]] == perm_list(
        pw,
        l.h.s[j],
    ) by {
        if j < mf {
            assert(px[j] == j);
            assert(l.h.s[j] == fg.h.s[j]);
            assert(fg.h.s[j] == f.h.s[j]);
            assert(r.h.s[j] == fh.h.s[j]);
            assert(fh.h.s[j] == f.h.s[j]);
            assert forall|k2: int| 0 <= k2 < f.h.s[j].len() implies perm_list(
                pw,
                f.h.s[j],
            )[k2] == f.h.s[j][k2] by {
                assert(0 <= f.h.s[j][k2] < nf);
            }
            assert(perm_list(pw, f.h.s[j]) =~= f.h.s[j]);
        } else if j < mf + mg {
            let j2 = j - mf;
            assert(px[j] == j + mh);
            assert(l.h.s[j] == fg.h.s[mf + j2]);
            assert(fg.h.s[mf + j2] == ren_seq(f.t, g.s, nf, g.h.s[j2]));
            assert(r.h.s[(mf + mh) + j2] == ren_seq(tt, bb, nf + nh, gk.h.s[j2]));
            assert(gk.h.s[j2] == g.h.s[j2]);
            assert forall|k2: int| 0 <= k2 < g.h.s[j2].len() implies ren_seq(
                tt,
                bb,
                nf + nh,
                g.h.s[j2],
            )[k2] == perm_list(pw, ren_seq(f.t, g.s, nf, g.h.s[j2]))[k2] by {
                assert(0 <= g.h.s[j2][k2] < ng);
                lemma_interchange_ren_low(f, g, h, k, g.h.s[j2][k2]);
            }
            assert(ren_seq(tt, bb, nf + nh, g.h.s[j2]) =~= perm_list(
                pw,
                ren_seq(f.t, g.s, nf, g.h.s[j2]),
            ));
        } else if j < mf + mg + mh {
            let j2 = j - mf - mg;
            assert(px[j] == j - mg);
            assert(l.h.s[(mf + mg) + j2] == shifted(hk.h.s[j2], nf + fg_fresh));
            assert(hk.h.s[j2] == h.h.s[j2]);
            assert(r.h.s[mf + j2] == fh.h.s[mf + j2]);
            assert(fh.h.s[mf + j2] == shifted(h.h.s[j2], nf));
            assert forall|k2: int| 0 <= k2 < h.h.s[j2].len() implies shifted(
                h.h.s[j2],
                nf,
            )[k2] == perm_list(pw, shifted(h.h.s[j2], nf + fg_fresh))[k2] by {
                assert(0 <= h.h.s[j2][k2] < nh);
                assert(pw[h.h.s[j2][k2] + nf + fg_fresh] == h.h.s[j2][k2] + nf);
            }
            assert(shifted(h.h.s[j2], nf) =~= perm_list(
                pw,
                shifted(h.h.s[j2], nf + fg_fresh),
            ));
        } else {
            let j3 = j - mf - mg - mh;
            assert(px[j] == j);
            assert(l.h.s[(mf + mg) + (mh + j3)] == shifted(hk.h.s[mh + j3], nf + fg_fresh));
            assert(hk.h.s[mh + j3] == ren_seq(h.t, k.s, nh, k.h.s[j3]));
            assert(r.h.s[(mf + mh) + (mg + j3)] == ren_seq(tt, bb, nf + nh, gk.h.s[mg + j3]));
            assert(gk.h.s[mg + j3] == shifted(k.h.s[j3], ng));
            assert forall|k2: int| 0 <= k2 < k.h.s[j3].len() implies #[trigger] ren_seq(
                tt,
                bb,
                nf + nh,
                shifted(k.h.s[j3], ng),
            )[k2] == perm_list(
                pw,
                shifted(ren_seq(h.t, k.s, nh, k.h.s[j3]), nf + fg_fresh),
            )[k2] by {
                let e = k.h.s[j3][k2];
                assert(0 <= e < nk);
                lemma_interchange_ren_high(f, g, h, k, e);
                assert(shifted(k.h.s[j3], ng)[k2] == ng + e);
                assert(ren_at(tt, bb, nf + nh, ng + e) == pw[ren_at(h.t, k.s, nh, e) + nf
                    + fg_fresh]);
            }
            assert(ren_seq(tt, bb, nf + nh, shifted(k.h.s[j3], ng)) =~= perm_list(
                pw,
                shifted(ren_seq(h.t, k.s, nh, k.h.s[j3]), nf + fg_fresh),
            ));
        }
    }

    assert forall|j: int| 0 <= j < l.h.t.len() implies #[trigger] r.h.t[px[j]] == perm_list(
        pw,
        l.h.t[j],
    ) by {
        if j < mf {
            assert(px[j] == j);
            assert(l.h.t[j] == fg.h.t[j]);
            assert(fg.h.t[j] == f.h.t[j]);
            assert(r.h.t[j] == fh.h.t[j]);
            assert(fh.h.t[j] == f.h.t[j]);
            assert forall|k2: int| 0 <= k2 < f.h.t[j].len() implies perm_list(
                pw,
                f.h.t[j],
            )[k2] == f.h.t[j][k2] by {
                assert(0 <= f.h.t[j][k2] < nf);
            }
            assert(perm_list(pw, f.h.t[j]) =~= f.h.t[j]);
        } else if j < mf + mg {
            let j2 = j - mf;
            assert(px[j] == j + mh);
            assert(l.h.t[j] == fg.h.t[mf + j2]);
            assert(fg.h.t[mf + j2] == ren_seq(f.t, g.s, nf, g.h.t[j2]));
            assert(r.h.t[(mf + mh) + j2] == ren_seq(tt, bb, nf + nh, gk.h.t[j2]));
            assert(gk.h.t[j2] == g.h.t[j2]);
            assert forall|k2: int| 0 <= k2 < g.h.t[j2].len() implies ren_seq(
                tt,
                bb,
                nf + nh,
                g.h.t[j2],
            )[k2] == perm_list(pw, ren_seq(f.t, g.s, nf, g.h.t[j2]))[k2] by {
                assert(0 <= g.h.t[j2][k2] < ng);
                lemma_interchange_ren_low(f, g, h, k, g.h.t[j2][k2]);
            }
            assert(ren_seq(tt, bb, nf + nh, g.h.t[j2]) =~= perm_list(
                pw,
                ren_seq(f.t, g.s, nf, g.h.t[j2]),
            ));
        } else if j < mf + mg + mh {
            let j2 = j - mf - mg;
            assert(px[j] == j - mg);
            assert(l.h.t[(mf + mg) + j2] == shifted(hk.h.t[j2], nf + fg_fresh));
            assert(hk.h.t[j2] == h.h.t[j2]);
            assert(r.h.t[mf + j2] == fh.h.t[mf + j2]);
            assert(fh.h.t[mf + j2] == shifted(h.h.t[j2], nf));
            assert forall|k2: int| 0 <= k2 < h.h.t[j2].len() implies shifted(
                h.h.t[j2],
                nf,
            )[k2] == perm_list(pw, shifted(h.h.t[j2], nf + fg_fresh))[k2] by {
                assert(0 <= h.h.t[j2][k2] < nh);
                assert(pw[h.h.t[j2][k2] + nf + fg_fresh] == h.h.t[j2][k2] + nf);
            }
            assert(shifted(h.h.t[j2], nf) =~= perm_list(
                pw,
                shifted(h.h.t[j2], nf + fg_fresh),
            ));
        } else {
            let j3 = j - mf - mg - mh;
            assert(px[j] == j);
            assert(l.h.t[(mf + mg) + (mh + j3)] == shifted(hk.h.t[mh + j3], nf + fg_fresh));
            assert(hk.h.t[mh + j3] == ren_seq(h.t, k.s, nh, k.h.t[j3]));
            assert(r.h.t[(mf + mh) + (mg + j3)] == ren_seq(tt, bb, nf + nh, gk.h.t[mg + j3]));
            assert(gk.h.t[mg + j3] == shifted(k.h.t[j3], ng));
            assert forall|k2: int| 0 <= k2 < k.h.t[j3].len() implies #[trigger] ren_seq(
                tt,
                bb,
                nf + nh,
                shifted(k.h.t[j3], ng),
            )[k2] == perm_list(
                pw,
                shifted(ren_seq(h.t, k.s, nh, k.h.t[j3]), nf + fg_fresh),
            )[k2] by {
                let e = k.h.t[j3][k2];
                assert(0 <= e < nk);
                lemma_interchange_ren_high(f, g, h, k, e);
                assert(shifted(k.h.t[j3], ng)[k2] == ng + e);
                assert(ren_at(tt, bb, nf + nh, ng + e) == pw[ren_at(h.t, k.s, nh, e) + nf
                    + fg_fresh]);
            }
            assert(ren_seq(tt, bb, nf + nh, shifted(k.h.t[j3], ng)) =~= perm_list(
                pw,
                shifted(ren_seq(h.t, k.s, nh, k.h.t[j3]), nf + fg_fresh),
            ));
        }
    }

    assert(relabel_rel(l.h, r.h, pw, px));
    // Boundaries.
    assert(r.s == f.s + shifted(h.s, nf));
    assert(l.s == f.s + shifted(h.s, nf + fg_fresh));
    assert forall|i: int| 0 <= i < l.s.len() implies perm_list(pw, l.s)[i] == r.s[i] by {
        if i < f.s.len() {
            assert(0 <= f.s[i] < nf);
            assert(pw[f.s[i]] == f.s[i]);
        } else {
            let i2 = i - f.s.len();
            assert(0 <= h.s[i2] < nh);
            assert(l.s[i] == h.s[i2] + nf + fg_fresh);
            assert(pw[h.s[i2] + nf + fg_fresh] == h.s[i2] + nf);
        }
    }
    assert(r.s =~= perm_list(pw, l.s));
    assert(l.t == ren_seq(f.t, g.s, nf, g.t) + shifted(ren_seq(h.t, k.s, nh, k.t), nf + fg_fresh));
    assert(r.t == ren_seq(tt, bb, nf + nh, g.t + shifted(k.t, ng)));
    assert(g.t.len() == ren_seq(f.t, g.s, nf, g.t).len());
    assert forall|i: int| 0 <= i < l.t.len() implies perm_list(pw, l.t)[i] == r.t[i] by {
        if i < g.t.len() {
            assert(0 <= g.t[i] < ng);
            assert((g.t + shifted(k.t, ng))[i] == g.t[i]);
            lemma_interchange_ren_low(f, g, h, k, g.t[i]);
            assert(l.t[i] == ren_at(f.t, g.s, nf, g.t[i]));
        } else {
            let i2 = i - g.t.len();
            let e = k.t[i2];
            assert(0 <= e < nk);
            assert((g.t + shifted(k.t, ng))[i] == ng + e);
            lemma_interchange_ren_high(f, g, h, k, e);
            assert(l.t[i] == ren_at(h.t, k.s, nh, e) + nf + fg_fresh);
            assert(r.t[i] == ren_at(tt, bb, nf + nh, ng + e));
        }
    }
    assert(r.t =~= perm_list(pw, l.t));
}

} // verus!
