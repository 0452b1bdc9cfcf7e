//! The open-hypergraph data model and the composition algebra.
//!
//! A diagram is a hypergraph — typed wires, labeled hyperedges, each
//! hyperedge's ordered input and output wire lists — together with the
//! diagram's own ordered input and output boundary.  Wires and hyperedges are
//! densely indexed from zero.

use vstd::prelude::*;
use crate::circuit::{Obj, Arr, CircuitError};
use crate::util::{
    idxs, idx_lists, copy_idxs, copy_objs, copy_arrs, copy_lists, eq_idxs, eq_objs, eq_arrs,
    eq_lists, extend_objs, extend_arrs, extend_idxs, range_vec, lemma_idxs_injective, shifted,
    shifted_lists, shift_idxs, concat_shift_lists, apply_ren,
};

verus! {

broadcast use crate::util::group_idx_views;

/// The internal hypergraph of a diagram: wire types, hyperedge labels, and
/// each hyperedge's ordered input (`s`) and output (`t`) wire lists.
#[derive(Debug)]
pub struct Hypergraph {
    pub w: Vec<Obj>,
    pub x: Vec<Arr>,
    pub s: Vec<Vec<usize>>,
    pub t: Vec<Vec<usize>>,
}

/// The mathematical value of a `Hypergraph`.
#[verifier::ext_equal]
pub struct HypergraphV {
    pub w: Seq<Obj>,
    pub x: Seq<Arr>,
    pub s: Seq<Seq<int>>,
    pub t: Seq<Seq<int>>,
}

impl View for Hypergraph {
    type V = HypergraphV;

    open spec fn view(&self) -> HypergraphV {
        HypergraphV { w: self.w@, x: self.x@, s: idx_lists(self.s@), t: idx_lists(self.t@) }
    }
}

impl HypergraphV {
    /// Well-formed: one input and one output list per hyperedge, of the
    /// lengths its label's profile demands, and every entry a wire index.
    pub open spec fn wf(self) -> bool {
        &&& self.s.len() == self.x.len()
        &&& self.t.len() == self.x.len()
        &&& forall|j: int| 0 <= j < self.x.len() ==> (#[trigger] self.s[j]).len() == self.x[j].arity()
        &&& forall|j: int| 0 <= j < self.x.len() ==> (#[trigger] self.t[j]).len()
            == self.x[j].coarity()
        &&& forall|j: int, k: int|
            0 <= j < self.s.len() && 0 <= k < self.s[j].len() ==> 0 <= #[trigger] self.s[j][k]
                < self.w.len()
        &&& forall|j: int, k: int|
            0 <= j < self.t.len() && 0 <= k < self.t[j].len() ==> 0 <= #[trigger] self.t[j][k]
                < self.w.len()
    }
}

/// A diagram: an internal hypergraph plus the ordered input boundary `s` and
/// output boundary `t`, each a list of wire indices.
#[derive(Debug)]
pub struct OpenHypergraph {
    pub s: Vec<usize>,
    pub t: Vec<usize>,
    pub h: Hypergraph,
}

/// The mathematical value of an `OpenHypergraph`.
#[verifier::ext_equal]
pub struct OpenHypergraphV {
    pub s: Seq<int>,
    pub t: Seq<int>,
    pub h: HypergraphV,
}

impl View for OpenHypergraph {
    type V = OpenHypergraphV;

    open spec fn view(&self) -> OpenHypergraphV {
        OpenHypergraphV { s: idxs(self.s@), t: idxs(self.t@), h: self.h@ }
    }
}

impl OpenHypergraphV {
    /// Well-formed: the hypergraph is, and every boundary entry is a wire index.
    pub open spec fn wf(self) -> bool {
        &&& self.h.wf()
        &&& forall|i: int| 0 <= i < self.s.len() ==> 0 <= #[trigger] self.s[i] < self.h.w.len()
        &&& forall|i: int| 0 <= i < self.t.len() ==> 0 <= #[trigger] self.t[i] < self.h.w.len()
    }

    /// The wire types along the input boundary, in boundary order.
    pub open spec fn s_types(self) -> Seq<Obj> {
        Seq::new(self.s.len(), |i: int| self.h.w[self.s[i]])
    }

    /// The wire types along the output boundary, in boundary order.
    pub open spec fn t_types(self) -> Seq<Obj> {
        Seq::new(self.t.len(), |i: int| self.h.w[self.t[i]])
    }
}

/// The position of the last occurrence of `u` in `bnd`, or `-1` if `u` does
/// not occur.
pub open spec fn last_match(bnd: Seq<int>, u: int) -> int
    decreases bnd.len(),
{
    if bnd.len() == 0 {
        -1
    } else if bnd.last() == u {
        bnd.len() - 1
    } else {
        last_match(bnd.drop_last(), u)
    }
}

/// What `last_match` finds: a matching position after which no other occurs,
/// or `-1` when there is none anywhere.
pub proof fn lemma_last_match(bnd: Seq<int>, u: int)
    ensures
        -1 <= last_match(bnd, u) < bnd.len(),
        last_match(bnd, u) >= 0 ==> bnd[last_match(bnd, u)] == u,
        forall|j: int| last_match(bnd, u) < j < bnd.len() ==> bnd[j] != u,
    decreases bnd.len(),
{
    if bnd.len() > 0 && bnd.last() != u {
        lemma_last_match(bnd.drop_last(), u);
        assert forall|j: int| last_match(bnd, u) < j < bnd.len() implies bnd[j] != u by {
            if j < bnd.len() - 1 {
                assert(bnd.drop_last()[j] == bnd[j]);
            }
        }
    }
}

/// `last_match` pinned: a matching position after which nothing matches is
/// the last one.
pub proof fn lemma_last_match_at(bnd: Seq<int>, u: int, i: int)
    requires
        0 <= i < bnd.len(),
        bnd[i] == u,
        forall|j: int| i < j < bnd.len() ==> bnd[j] != u,
    ensures
        last_match(bnd, u) == i,
{
    lemma_last_match(bnd, u);
    let lm = last_match(bnd, u);
    if lm < i {
        assert(bnd[i] != u);
    }
    if lm > i {
        assert(bnd[lm] != u);
        assert(bnd[lm] == u);
    }
}

/// `last_match` pinned: a value that occurs nowhere is not matched.
pub proof fn lemma_last_match_none(bnd: Seq<int>, u: int)
    requires
        forall|j: int| 0 <= j < bnd.len() ==> bnd[j] != u,
    ensures
        last_match(bnd, u) == -1,
{
    lemma_last_match(bnd, u);
    let lm = last_match(bnd, u);
    if lm >= 0 {
        assert(bnd[lm] != u);
        assert(bnd[lm] == u);
    }
}

/// How many wires in `[0, upto)` do not occur in `bnd`: the wires of the
/// second diagram that composition keeps as fresh wires.
pub open spec fn n_fresh(bnd: Seq<int>, upto: int) -> int
    decreases upto,
{
    if upto <= 0 {
        0
    } else if last_match(bnd, upto - 1) == -1 {
        n_fresh(bnd, upto - 1) + 1
    } else {
        n_fresh(bnd, upto - 1)
    }
}

/// The types of those fresh wires, in index order.
pub open spec fn fresh_labels(w: Seq<Obj>, bnd: Seq<int>, upto: int) -> Seq<Obj>
    decreases upto,
{
    if upto <= 0 {
        Seq::empty()
    } else if last_match(bnd, upto - 1) == -1 {
        fresh_labels(w, bnd, upto - 1).push(w[upto - 1])
    } else {
        fresh_labels(w, bnd, upto - 1)
    }
}

/// `fresh_labels` lists one type per fresh wire.
pub proof fn lemma_fresh_props(w: Seq<Obj>, bnd: Seq<int>, upto: int)
    ensures
        fresh_labels(w, bnd, upto).len() == n_fresh(bnd, upto),
        0 <= n_fresh(bnd, upto),
        n_fresh(bnd, upto) <= if upto >= 0 { upto } else { 0 },
    decreases upto,
{
    if upto > 0 {
        lemma_fresh_props(w, bnd, upto - 1);
    }
}

/// A fresh wire `u` keeps its rank and its type among the fresh wires.
pub proof fn lemma_fresh_at(w: Seq<Obj>, bnd: Seq<int>, u: int, upto: int)
    requires
        0 <= u < upto,
        last_match(bnd, u) == -1,
    ensures
        0 <= n_fresh(bnd, u) < n_fresh(bnd, upto),
        fresh_labels(w, bnd, upto)[n_fresh(bnd, u)] == w[u],
    decreases upto,
{
    lemma_fresh_props(w, bnd, u);
    lemma_fresh_props(w, bnd, upto - 1);
    if u == upto - 1 {
    } else {
        lemma_fresh_at(w, bnd, u, upto - 1);
    }
}

/// Where wire `u` of the second diagram lands in a composite: on the first
/// diagram's output boundary if `u` is a boundary input, else appended after
/// the first diagram's wires in fresh-rank order.
pub open spec fn ren_at(ftb: Seq<int>, bnd: Seq<int>, nf: int, u: int) -> int {
    if last_match(bnd, u) >= 0 {
        ftb[last_match(bnd, u)]
    } else {
        nf + n_fresh(bnd, u)
    }
}

/// `ren_at` applied to every entry of a wire list.
pub open spec fn ren_seq(ftb: Seq<int>, bnd: Seq<int>, nf: int, s: Seq<int>) -> Seq<int> {
    Seq::new(s.len(), |k: int| ren_at(ftb, bnd, nf, s[k]))
}

/// Two diagrams compose sequentially exactly when the first's output boundary
/// carries the same types, in the same order, as the second's input boundary.
pub open spec fn composable(f: OpenHypergraphV, g: OpenHypergraphV) -> bool {
    f.t_types() == g.s_types()
}

/// The landing place of any wire of the second diagram is a wire of the
/// composite with the same type.
pub proof fn lemma_ren_label(f: OpenHypergraphV, g: OpenHypergraphV, u: int)
    requires
        f.wf(),
        g.wf(),
        composable(f, g),
        0 <= u < g.h.w.len(),
    ensures
        0 <= ren_at(f.t, g.s, f.h.w.len() as int, u) < f.h.w.len() + n_fresh(
            g.s,
            g.h.w.len() as int,
        ),
        (f.h.w + fresh_labels(g.h.w, g.s, g.h.w.len() as int))[ren_at(
            f.t,
            g.s,
            f.h.w.len() as int,
            u,
        )] == g.h.w[u],
{
    let lm = last_match(g.s, u);
    lemma_last_match(g.s, u);
    lemma_fresh_props(g.h.w, g.s, g.h.w.len() as int);
    if lm >= 0 {
        assert(f.t_types().len() == g.s_types().len());
        assert(f.t.len() == g.s.len());
        assert(0 <= f.t[lm] < f.h.w.len());
        assert(f.t_types()[lm] == g.s_types()[lm]);
        assert(g.s[lm] == u);
        assert(f.h.w[f.t[lm]] == g.h.w[u]);
    } else {
        lemma_fresh_at(g.h.w, g.s, u, g.h.w.len() as int);
    }
}

/// The parallel composite of two diagrams as a mathematical value: the
/// second diagram's wires and hyperedges are shifted past the first's, and
/// the boundaries are concatenated in order.
pub open spec fn tensor_spec(f: OpenHypergraphV, g: OpenHypergraphV) -> OpenHypergraphV {
    OpenHypergraphV {
        s: f.s + shifted(g.s, f.h.w.len() as int),
        t: f.t + shifted(g.t, f.h.w.len() as int),
        h: HypergraphV {
            w: f.h.w + g.h.w,
            x: f.h.x + g.h.x,
            s: f.h.s + shifted_lists(g.h.s, f.h.w.len() as int),
            t: f.h.t + shifted_lists(g.h.t, f.h.w.len() as int),
        },
    }
}

/// Parallel composition is associative, exactly: grouping does not matter.
pub proof fn lemma_tensor_assoc(f: OpenHypergraphV, g: OpenHypergraphV, h: OpenHypergraphV)
    ensures
        tensor_spec(tensor_spec(f, g), h) == tensor_spec(f, tensor_spec(g, h)),
{
    let nf = f.h.w.len() as int;
    let ng = g.h.w.len() as int;
    let l = tensor_spec(tensor_spec(f, g), h);
    let r = tensor_spec(f, tensor_spec(g, h));
    assert forall|a: Seq<int>, b: int, c: int| shifted(shifted(a, b), c) =~= shifted(
        a,
        b + c,
    ) by {}
    assert(shifted(h.s, ng + nf) =~= shifted(shifted(h.s, ng), nf));
    assert(shifted(h.t, ng + nf) =~= shifted(shifted(h.t, ng), nf));
    assert(l.s =~= r.s);
    assert(l.t =~= r.t);
    assert(l.h.w =~= r.h.w);
    assert(l.h.x =~= r.h.x);
    assert forall|j: int| 0 <= j < l.h.s.len() implies l.h.s[j] =~= r.h.s[j] by {
        if j >= f.h.s.len() + g.h.s.len() {
            let j2 = j - f.h.s.len() - g.h.s.len();
            assert(shifted(shifted(h.h.s[j2], ng), nf) =~= shifted(h.h.s[j2], ng + nf));
        }
    }
    assert(l.h.s =~~= r.h.s);
    assert forall|j: int| 0 <= j < l.h.t.len() implies l.h.t[j] =~= r.h.t[j] by {
        if j >= f.h.t.len() + g.h.t.len() {
            let j2 = j - f.h.t.len() - g.h.t.len();
            assert(shifted(shifted(h.h.t[j2], ng), nf) =~= shifted(h.h.t[j2], ng + nf));
        }
    }
    assert(l.h.t =~~= r.h.t);
    assert(l =~~= r);
}

impl Hypergraph {
    /// Exact structural equality: same wires, labels, and wire lists.
    pub fn struct_eq(&self, other: &Hypergraph) -> (r: bool)
        ensures
            r <==> self@ == other@,
    {
        let r = eq_objs(&self.w, &other.w) && eq_arrs(&self.x, &other.x) && eq_lists(
            &self.s,
            &other.s,
        ) && eq_lists(&self.t, &other.t);
        proof {
            if r {
                assert(self@ =~= other@);
            }
        }
        r
    }
}

impl OpenHypergraph {
    /// Exact structural equality: same hypergraph and same boundaries.
    pub fn struct_eq(&self, other: &OpenHypergraph) -> (r: bool)
        ensures
            r <==> self@ == other@,
    {
        let r = eq_idxs(&self.s, &other.s) && eq_idxs(&self.t, &other.t) && self.h.struct_eq(
            &other.h,
        );
        proof {
            if r {
                assert(self@ =~= other@);
            } else {
                if self@ == other@ {
                    lemma_idxs_injective(self.s@, other.s@);
                    lemma_idxs_injective(self.t@, other.t@);
                }
            }
        }
        r
    }

    /// The identity diagram on a list of wire types: one wire per position, no
    /// hyperedges, and both boundaries reading the wires off in order.
    pub fn identity(objs: Vec<Obj>) -> (r: OpenHypergraph)
        ensures
            r@.wf(),
            r@.h.w == objs@,
            r@.h.x.len() == 0,
            r@.h.s.len() == 0,
            r@.h.t.len() == 0,
            r@.s.len() == objs@.len(),
            forall|i: int| 0 <= i < r@.s.len() ==> r@.s[i] == i,
            r@.t == r@.s,
            r@.s_types() == objs@,
            r@.t_types() == objs@,
    {
        let n = objs.len();
        let sb = range_vec(0, n);
        let tb = copy_idxs(&sb);
        let r = OpenHypergraph {
            s: sb,
            t: tb,
            h: Hypergraph { w: objs, x: Vec::new(), s: Vec::new(), t: Vec::new() },
        };
        proof {
            assert(r@.t =~= r@.s);
            assert(r@.s_types() =~= r@.h.w);
            assert(r@.t_types() =~= r@.h.w);
        }
        r
    }

    /// The crossing diagram on two lists of wire types: no hyperedges, input
    /// boundary `a ++ b`, output boundary the same wires with the two groups
    /// swapped.
    pub fn twist(a: Vec<Obj>, b: Vec<Obj>) -> (r: OpenHypergraph)
        ensures
            r@.wf(),
            r@.h.w == a@ + b@,
            r@.h.x.len() == 0,
            r@.h.s.len() == 0,
            r@.h.t.len() == 0,
            r@.s.len() == a@.len() + b@.len(),
            forall|i: int| 0 <= i < r@.s.len() ==> r@.s[i] == i,
            r@.t.len() == a@.len() + b@.len(),
            forall|i: int| 0 <= i < b@.len() ==> r@.t[i] == a@.len() + i,
            forall|i: int| 0 <= i < a@.len() ==> #[trigger] r@.t[b@.len() + i] == i,
            r@.s_types() == a@ + b@,
            r@.t_types() == b@ + a@,
    {
        let na = a.len();
        let nb = b.len();
        let mut w = a;
        extend_objs(&mut w, &b);
        // `w.len() == na + nb` shows the index arithmetic below stays in range.
        let sb = range_vec(0, w.len());
        let mut tb = range_vec(na, nb);
        let high = range_vec(0, na);
        extend_idxs(&mut tb, &high);
        let r = OpenHypergraph { s: sb, t: tb, h: Hypergraph { w, x: Vec::new(), s: Vec::new(), t: Vec::new() } };
        proof {
            assert forall|i: int| 0 <= i < b@.len() implies r@.t[i] == a@.len() + i by {
                assert(r@.t[i] == tb@[i] as int);
            }
            assert forall|i: int| 0 <= i < a@.len() implies #[trigger] r@.t[b@.len() + i] == i by {
                assert(r@.t[b@.len() + i] == tb@[b@.len() + i] as int);
                assert(tb@[b@.len() + i] == high@[i]);
            }
            assert(r@.s_types() =~= a@ + b@);
            assert(r@.t_types() =~= b@ + a@);
        }
        r
    }

    /// Parallel composition: place `self` and `other` side by side.  Wires and
    /// hyperedges of `other` are shifted past those of `self`; both boundaries
    /// are concatenated in order.  Always succeeds.
    pub fn tensor(&self, other: &OpenHypergraph) -> (r: OpenHypergraph)
        requires
            self@.wf(),
            other@.wf(),
        ensures
            r@.wf(),
            r@.h.w == self@.h.w + other@.h.w,
            r@.h.x == self@.h.x + other@.h.x,
            r@.h.s == self@.h.s + shifted_lists(other@.h.s, self@.h.w.len() as int),
            r@.h.t == self@.h.t + shifted_lists(other@.h.t, self@.h.w.len() as int),
            r@.s == self@.s + shifted(other@.s, self@.h.w.len() as int),
            r@.t == self@.t + shifted(other@.t, self@.h.w.len() as int),
            r@.s_types() == self@.s_types() + other@.s_types(),
            r@.t_types() == self@.t_types() + other@.t_types(),
            r@ == tensor_spec(self@, other@),
    {
        let nf = self.h.w.len();
        let ng = other.h.w.len();
        let mut w = copy_objs(&self.h.w);
        extend_objs(&mut w, &other.h.w);
        let wl = w.len();
        proof {
            // `wl == nf + ng`, so the shifted indices below stay within `usize`.
            assert(nf + ng <= usize::MAX);
            assert forall|j2: int, k: int|
                0 <= j2 < other.h.s@.len() && 0 <= k < other.h.s@[j2]@.len() implies (
            #[trigger] other.h.s@[j2]@[k] as int) < ng by {
                assert(idx_lists(other.h.s@)[j2] == idxs(other.h.s@[j2]@));
                assert(idxs(other.h.s@[j2]@)[k] == other.h.s@[j2]@[k] as int);
                assert(0 <= other@.h.s[j2][k] < other@.h.w.len());
            }
            assert forall|j2: int, k: int|
                0 <= j2 < other.h.t@.len() && 0 <= k < other.h.t@[j2]@.len() implies (
            #[trigger] other.h.t@[j2]@[k] as int) < ng by {
                assert(idx_lists(other.h.t@)[j2] == idxs(other.h.t@[j2]@));
                assert(idxs(other.h.t@[j2]@)[k] == other.h.t@[j2]@[k] as int);
                assert(0 <= other@.h.t[j2][k] < other@.h.w.len());
            }
            assert forall|k: int| 0 <= k < other.s@.len() implies (#[trigger] other.s@[k] as int)
                < ng by {
                assert(idxs(other.s@)[k] == other.s@[k] as int);
                assert(0 <= other@.s[k] < other@.h.w.len());
            }
            assert forall|k: int| 0 <= k < other.t@.len() implies (#[trigger] other.t@[k] as int)
                < ng by {
                assert(idxs(other.t@)[k] == other.t@[k] as int);
                assert(0 <= other@.t[k] < other@.h.w.len());
            }
        }
        let mut x = copy_arrs(&self.h.x);
        extend_arrs(&mut x, &other.h.x);
        let hs = concat_shift_lists(&self.h.s, &other.h.s, nf, ng);
        let ht = concat_shift_lists(&self.h.t, &other.h.t, nf, ng);
        let mut sb = copy_idxs(&self.s);
        let sb_hi = shift_idxs(&other.s, nf, ng);
        extend_idxs(&mut sb, &sb_hi);
        let mut tb = copy_idxs(&self.t);
        let tb_hi = shift_idxs(&other.t, nf, ng);
        extend_idxs(&mut tb, &tb_hi);
        let r = OpenHypergraph { s: sb, t: tb, h: Hypergraph { w, x, s: hs, t: ht } };
        proof {
            crate::util::lemma_idxs_concat(self.s@, sb_hi@);
            crate::util::lemma_idxs_concat(self.t@, tb_hi@);
            assert(sb@ == self.s@ + sb_hi@);
            assert(tb@ == self.t@ + tb_hi@);
            assert(r@.s =~= self@.s + shifted(other@.s, nf as int));
            assert(r@.t =~= self@.t + shifted(other@.t, nf as int));
            let fv = self@;
            let gv = other@;
            let rv = r@;
            assert(rv.h.w.len() == fv.h.w.len() + gv.h.w.len());
            assert forall|i: int| 0 <= i < rv.s.len() implies 0 <= #[trigger] rv.s[i]
                < rv.h.w.len() by {
                if i >= fv.s.len() {
                    assert(rv.s[i] == gv.s[i - fv.s.len()] + nf);
                }
            }
            assert forall|i: int| 0 <= i < rv.t.len() implies 0 <= #[trigger] rv.t[i]
                < rv.h.w.len() by {
                if i >= fv.t.len() {
                    assert(rv.t[i] == gv.t[i - fv.t.len()] + nf);
                }
            }
            assert forall|j: int| 0 <= j < rv.h.x.len() implies (#[trigger] rv.h.s[j]).len()
                == rv.h.x[j].arity() && (#[trigger] rv.h.t[j]).len() == rv.h.x[j].coarity() by {
                if j < fv.h.x.len() {
                    assert(rv.h.s[j] == fv.h.s[j]);
                    assert(rv.h.t[j] == fv.h.t[j]);
                } else {
                    let j2 = j - fv.h.x.len();
                    assert(rv.h.s[j] == shifted(gv.h.s[j2], nf as int));
                    assert(rv.h.t[j] == shifted(gv.h.t[j2], nf as int));
                    assert(rv.h.x[j] == gv.h.x[j2]);
                }
            }
            assert forall|j: int, k: int|
                0 <= j < rv.h.s.len() && 0 <= k < rv.h.s[j].len() implies 0 <= #[trigger] rv.h.s[j][k]
                < rv.h.w.len() by {
                if j < fv.h.s.len() {
                    assert(rv.h.s[j] == fv.h.s[j]);
                    assert(0 <= fv.h.s[j][k] < fv.h.w.len());
                } else {
                    let j2 = j - fv.h.s.len();
                    assert(rv.h.s[j] == shifted(gv.h.s[j2], nf as int));
                    assert(rv.h.s[j][k] == gv.h.s[j2][k] + nf);
                    assert(0 <= gv.h.s[j2][k] < gv.h.w.len());
                }
            }
            assert forall|j: int, k: int|
                0 <= j < rv.h.t.len() && 0 <= k < rv.h.t[j].len() implies 0 <= #[trigger] rv.h.t[j][k]
                < rv.h.w.len() by {
                if j < fv.h.t.len() {
                    assert(rv.h.t[j] == fv.h.t[j]);
                    assert(0 <= fv.h.t[j][k] < fv.h.w.len());
                } else {
                    let j2 = j - fv.h.t.len();
                    assert(rv.h.t[j] == shifted(gv.h.t[j2], nf as int));
                    assert(rv.h.t[j][k] == gv.h.t[j2][k] + nf);
                    assert(0 <= gv.h.t[j2][k] < gv.h.w.len());
                }
            }
            assert(rv.wf());
            assert forall|i: int| 0 <= i < rv.s.len() implies #[trigger] rv.s_types()[i] == (
            fv.s_types() + gv.s_types())[i] by {
                if i < fv.s.len() {
                    assert(0 <= fv.s[i] < fv.h.w.len());
                } else {
                    let i2 = i - fv.s.len();
                    assert(rv.s[i] == gv.s[i2] + nf);
                    assert(0 <= gv.s[i2] < gv.h.w.len());
                    assert(rv.h.w[nf + gv.s[i2]] == gv.h.w[gv.s[i2]]);
                }
            }
            assert(rv.s_types() =~= fv.s_types() + gv.s_types());
            assert forall|i: int| 0 <= i < rv.t.len() implies #[trigger] rv.t_types()[i] == (
            fv.t_types() + gv.t_types())[i] by {
                if i < fv.t.len() {
                    assert(0 <= fv.t[i] < fv.h.w.len());
                } else {
                    let i2 = i - fv.t.len();
                    assert(rv.t[i] == gv.t[i2] + nf);
                    assert(0 <= gv.t[i2] < gv.h.w.len());
                    assert(rv.h.w[nf + gv.t[i2]] == gv.h.w[gv.t[i2]]);
                }
            }
            assert(rv.t_types() =~= fv.t_types() + gv.t_types());
            assert(rv =~~= tensor_spec(fv, gv));
        }
        r
    }
}

impl Arr {
    /// The singleton diagram of this generator at wire type `obj`: one
    /// hyperedge, `arity` fresh input wires followed by `coarity` fresh output
    /// wires, all of type `obj`; the diagram's boundaries are the hyperedge's
    /// own wire lists.
    pub fn term(&self, obj: Obj) -> (r: OpenHypergraph)
        ensures
            r@.wf(),
            r@.h.x == seq![*self],
            r@.h.w.len() == self.arity() + self.coarity(),
            forall|i: int| 0 <= i < r@.h.w.len() ==> r@.h.w[i] == obj,
            r@.s.len() == self.arity(),
            forall|i: int| 0 <= i < r@.s.len() ==> r@.s[i] == i,
            r@.t.len() == self.coarity(),
            forall|i: int| 0 <= i < r@.t.len() ==> r@.t[i] == self.arity() + i,
            r@.h.s == seq![r@.s],
            r@.h.t == seq![r@.t],
            r@.s_types() == Seq::new(self.arity(), |i: int| obj),
            r@.t_types() == Seq::new(self.coarity(), |i: int| obj),
    {
        let (m, n) = self.profile();
        let total = m + n;
        let mut w: Vec<Obj> = Vec::new();
        let mut i: usize = 0;
        while i < total
            invariant
                i <= total,
                w@.len() == i,
                forall|k: int| 0 <= k < i ==> w@[k] == obj,
            decreases total - i,
        {
            w.push(obj);
            i = i + 1;
        }
        let sb = range_vec(0, m);
        let tb = range_vec(m, n);
        let mut x: Vec<Arr> = Vec::new();
        x.push(*self);
        let mut hs: Vec<Vec<usize>> = Vec::new();
        hs.push(copy_idxs(&sb));
        let mut ht: Vec<Vec<usize>> = Vec::new();
        ht.push(copy_idxs(&tb));
        let r = OpenHypergraph { s: sb, t: tb, h: Hypergraph { w, x, s: hs, t: ht } };
        proof {
            assert(r@.h.x =~= seq![*self]);
            assert(r@.h.s =~= seq![r@.s]);
            assert(r@.h.t =~= seq![r@.t]);
            assert(r@.s_types() =~= Seq::new(self.arity(), |i: int| obj));
            assert(r@.t_types() =~= Seq::new(self.coarity(), |i: int| obj));
            assert(r@.wf());
        }
        r
    }
}


/// The position of the last occurrence of `u` in `v`, found by scanning
/// backwards.
fn find_last(v: &Vec<usize>, u: usize) -> (r: Option<usize>)
    ensures
        match r {
            Some(i) => i < v@.len() && last_match(idxs(v@), u as int) == i,
            None => last_match(idxs(v@), u as int) == -1,
        },
{
    let mut i: usize = v.len();
    while i > 0
        invariant
            i <= v@.len(),
            forall|j: int| i <= j < v@.len() ==> idxs(v@)[j] != u,
        decreases i,
    {
        i = i - 1;
        if v[i] == u {
            proof {
                lemma_last_match(idxs(v@), u as int);
                assert(idxs(v@)[i as int] == v@[i as int] as int);
            }
            return Some(i);
        }
        proof {
            assert(idxs(v@)[i as int] == v@[i as int] as int);
        }
    }
    proof {
        lemma_last_match(idxs(v@), u as int);
    }
    None
}

impl OpenHypergraph {
    /// Sequential composition: glue `other` after `self`, identifying `self`'s
    /// output boundary with `other`'s input boundary position by position.
    /// Fails with `TypeMismatch` exactly when the two boundaries differ in
    /// length or in the type at some position.
    pub fn compose(&self, other: &OpenHypergraph) -> (r: Result<OpenHypergraph, CircuitError>)
        requires
            self@.wf(),
            other@.wf(),
        ensures
            r is Ok <==> composable(self@, other@),
            r matches Err(e) ==> e == CircuitError::TypeMismatch,
            r matches Ok(c) ==> {
                &&& c@.wf()
                &&& c@.h.w == self@.h.w + fresh_labels(
                    other@.h.w,
                    other@.s,
                    other@.h.w.len() as int,
                )
                &&& c@.h.x == self@.h.x + other@.h.x
                &&& c@.h.s.len() == self@.h.x.len() + other@.h.x.len()
                &&& c@.h.t.len() == self@.h.x.len() + other@.h.x.len()
                &&& forall|j: int|
                    0 <= j < self@.h.x.len() ==> #[trigger] c@.h.s[j] == self@.h.s[j]
                        && #[trigger] c@.h.t[j] == self@.h.t[j]
                &&& forall|j: int|
                    0 <= j < other@.h.x.len() ==> #[trigger] c@.h.s[self@.h.x.len() + j]
                        == ren_seq(
                        self@.t,
                        other@.s,
                        self@.h.w.len() as int,
                        other@.h.s[j],
                    ) && #[trigger] c@.h.t[self@.h.x.len() + j] == ren_seq(
                        self@.t,
                        other@.s,
                        self@.h.w.len() as int,
                        other@.h.t[j],
                    )
                &&& c@.s == self@.s
                &&& c@.t == ren_seq(self@.t, other@.s, self@.h.w.len() as int, other@.t)
                &&& c@.s_types() == self@.s_types()
                &&& c@.t_types() == other@.t_types()
                &&& c@ == compose_spec(self@, other@)
            },
    {
        let k = self.t.len();
        if k != other.s.len() {
            proof {
                assert(self@.t_types().len() != other@.s_types().len());
            }
            return Err(CircuitError::TypeMismatch);
        }
        let mut i: usize = 0;
        while i < k
            invariant
                i <= k,
                k == self.t@.len(),
                k == other.s@.len(),
                self@.wf(),
                other@.wf(),
                forall|j: int| 0 <= j < i ==> #[trigger] self@.t_types()[j] == other@.s_types()[j],
            decreases k - i,
        {
            proof {
                assert(0 <= self@.t[i as int] < self@.h.w.len());
                assert(0 <= other@.s[i as int] < other@.h.w.len());
            }
            let ti = self.t[i];
            let si = other.s[i];
            if self.h.w[ti] != other.h.w[si] {
                proof {
                    assert(self@.t_types()[i as int] != other@.s_types()[i as int]);
                }
                return Err(CircuitError::TypeMismatch);
            }
            i = i + 1;
        }
        proof {
            assert(self@.t_types() =~= other@.s_types());
        }
        let ghost ftb = self@.t;
        let ghost gsb = other@.s;
        let ghost nfv = self@.h.w.len() as int;
        let ng = other.h.w.len();
        let mut new_w = copy_objs(&self.h.w);
        let mut ren: Vec<usize> = Vec::new();
        let mut u: usize = 0;
        while u < ng
            invariant
                u <= ng,
                ng == other@.h.w.len(),
                self@.wf(),
                other@.wf(),
                composable(self@, other@),
                ftb == self@.t,
                gsb == other@.s,
                nfv == self@.h.w.len(),
                k == self.t@.len(),
                k == other.s@.len(),
                ren@.len() == u,
                forall|k2: int| 0 <= k2 < u ==> (#[trigger] ren@[k2] as int) == ren_at(
                    ftb,
                    gsb,
                    nfv,
                    k2,
                ),
                new_w@ == self.h.w@ + fresh_labels(other.h.w@, gsb, u as int),
            decreases ng - u,
        {
            let ghost nw0 = new_w@;
            proof {
                lemma_fresh_props(other.h.w@, gsb, u as int);
            }
            match find_last(&other.s, u) {
                Some(i2) => {
                    proof {
                        lemma_last_match(gsb, u as int);
                        assert(last_match(gsb, u as int) == i2);
                        assert(0 <= self@.t[i2 as int] < self@.h.w.len());
                    }
                    ren.push(self.t[i2]);
                }
                None => {
                    ren.push(new_w.len());
                    new_w.push(other.h.w[u]);
                }
            }
            proof {
                assert(new_w@ =~= self.h.w@ + fresh_labels(other.h.w@, gsb, u + 1 as int));
            }
            u = u + 1;
        }
        proof {
            lemma_fresh_props(other.h.w@, gsb, ng as int);
            assert forall|j2: int, k2: int|
                0 <= j2 < other.h.s@.len() && 0 <= k2 < other.h.s@[j2]@.len() implies (
            #[trigger] other.h.s@[j2]@[k2] as int) < ng by {
                assert(idx_lists(other.h.s@)[j2] == idxs(other.h.s@[j2]@));
                assert(idxs(other.h.s@[j2]@)[k2] == other.h.s@[j2]@[k2] as int);
                assert(0 <= other@.h.s[j2][k2] < other@.h.w.len());
            }
            assert forall|j2: int, k2: int|
                0 <= j2 < other.h.t@.len() && 0 <= k2 < other.h.t@[j2]@.len() implies (
            #[trigger] other.h.t@[j2]@[k2] as int) < ng by {
                assert(idx_lists(other.h.t@)[j2] == idxs(other.h.t@[j2]@));
                assert(idxs(other.h.t@[j2]@)[k2] == other.h.t@[j2]@[k2] as int);
                assert(0 <= other@.h.t[j2][k2] < other@.h.w.len());
            }
            assert forall|k2: int| 0 <= k2 < other.t@.len() implies (#[trigger] other.t@[k2] as int)
                < ng by {
                assert(idxs(other.t@)[k2] == other.t@[k2] as int);
                assert(0 <= other@.t[k2] < other@.h.w.len());
            }
        }
        let mf = self.h.x.len();
        let mut new_x = copy_arrs(&self.h.x);
        extend_arrs(&mut new_x, &other.h.x);
        let mut new_hs = copy_lists(&self.h.s);
        proof {
            assert forall|k2: int| 0 <= k2 < self.h.s@.len() implies #[trigger] idxs(new_hs@[k2]@)
                == idx_lists(self.h.s@)[k2] by {
                assert(idx_lists(new_hs@)[k2] == idxs(new_hs@[k2]@));
            }
        }
        let mut j: usize = 0;
        while j < other.h.s.len()
            invariant
                j <= other.h.s@.len(),
                self@.wf(),
                other@.wf(),
                ng == other@.h.w.len(),
                ftb == self@.t,
                gsb == other@.s,
                nfv == self@.h.w.len(),
                mf == self.h.s@.len(),
                ren@.len() == ng,
                forall|k2: int| 0 <= k2 < ng ==> (#[trigger] ren@[k2] as int) == ren_at(
                    ftb,
                    gsb,
                    nfv,
                    k2,
                ),
                forall|j2: int, k2: int|
                    0 <= j2 < other.h.s@.len() && 0 <= k2 < other.h.s@[j2]@.len() ==> (
                #[trigger] other.h.s@[j2]@[k2] as int) < ng,
                new_hs@.len() == mf + j,
                forall|k2: int| 0 <= k2 < mf ==> #[trigger] idxs(new_hs@[k2]@) == idx_lists(
                    self.h.s@,
                )[k2],
                forall|k2: int| 0 <= k2 < j ==> #[trigger] idxs(new_hs@[mf + k2]@) == ren_seq(
                    ftb,
                    gsb,
                    nfv,
                    idx_lists(other.h.s@)[k2],
                ),
            decreases other.h.s@.len() - j,
        {
            let ghost hs0 = new_hs@;
            let lst = apply_ren(&ren, &other.h.s[j]);
            new_hs.push(lst);
            proof {
                assert(idx_lists(other.h.s@)[j as int] == idxs(other.h.s@[j as int]@));
                assert forall|k2: int| 0 <= k2 < lst@.len() implies idxs(lst@)[k2] == ren_seq(
                    ftb,
                    gsb,
                    nfv,
                    idx_lists(other.h.s@)[j as int],
                )[k2] by {
                    assert(lst@[k2] == ren@[other.h.s@[j as int]@[k2] as int]);
                    assert(idxs(lst@)[k2] == lst@[k2] as int);
                    assert((ren@[other.h.s@[j as int]@[k2] as int] as int) == ren_at(
                        ftb,
                        gsb,
                        nfv,
                        other.h.s@[j as int]@[k2] as int,
                    ));
                    assert(idxs(other.h.s@[j as int]@)[k2] == other.h.s@[j as int]@[k2] as int);
                }
                assert(idxs(lst@) =~= ren_seq(ftb, gsb, nfv, idx_lists(other.h.s@)[j as int]));
                assert forall|k2: int| 0 <= k2 < mf implies #[trigger] idxs(new_hs@[k2]@)
                    == idx_lists(self.h.s@)[k2] by {
                    assert(new_hs@[k2] == hs0[k2]);
                }
                assert forall|k2: int| 0 <= k2 < j + 1 implies #[trigger] idxs(new_hs@[mf + k2]@)
                    == ren_seq(ftb, gsb, nfv, idx_lists(other.h.s@)[k2]) by {
                    if k2 < j {
                        assert(new_hs@[mf + k2] == hs0[mf + k2]);
                    } else {
                        assert(new_hs@[mf + k2] == lst);
                    }
                }
            }
            j = j + 1;
        }
        let mut new_ht = copy_lists(&self.h.t);
        proof {
            assert forall|k2: int| 0 <= k2 < self.h.t@.len() implies #[trigger] idxs(new_ht@[k2]@)
                == idx_lists(self.h.t@)[k2] by {
                assert(idx_lists(new_ht@)[k2] == idxs(new_ht@[k2]@));
            }
        }
        let mut j: usize = 0;
        while j < other.h.t.len()
            invariant
                j <= other.h.t@.len(),
                self@.wf(),
                other@.wf(),
                ng == other@.h.w.len(),
                ftb == self@.t,
                gsb == other@.s,
                nfv == self@.h.w.len(),
                mf == self.h.t@.len(),
                ren@.len() == ng,
                forall|k2: int| 0 <= k2 < ng ==> (#[trigger] ren@[k2] as int) == ren_at(
                    ftb,
                    gsb,
                    nfv,
                    k2,
                ),
                forall|j2: int, k2: int|
                    0 <= j2 < other.h.t@.len() && 0 <= k2 < other.h.t@[j2]@.len() ==> (
                #[trigger] other.h.t@[j2]@[k2] as int) < ng,
                new_ht@.len() == mf + j,
                forall|k2: int| 0 <= k2 < mf ==> #[trigger] idxs(new_ht@[k2]@) == idx_lists(
                    self.h.t@,
                )[k2],
                forall|k2: int| 0 <= k2 < j ==> #[trigger] idxs(new_ht@[mf + k2]@) == ren_seq(
                    ftb,
                    gsb,
                    nfv,
                    idx_lists(other.h.t@)[k2],
                ),
            decreases other.h.t@.len() - j,
        {
            let ghost ht0 = new_ht@;
            let lst = apply_ren(&ren, &other.h.t[j]);
            new_ht.push(lst);
            proof {
                assert(idx_lists(other.h.t@)[j as int] == idxs(other.h.t@[j as int]@));
                assert forall|k2: int| 0 <= k2 < lst@.len() implies idxs(lst@)[k2] == ren_seq(
                    ftb,
                    gsb,
                    nfv,
                    idx_lists(other.h.t@)[j as int],
                )[k2] by {
                    assert(lst@[k2] == ren@[other.h.t@[j as int]@[k2] as int]);
                    assert(idxs(lst@)[k2] == lst@[k2] as int);
                    assert((ren@[other.h.t@[j as int]@[k2] as int] as int) == ren_at(
                        ftb,
                        gsb,
                        nfv,
                        other.h.t@[j as int]@[k2] as int,
                    ));
                    assert(idxs(other.h.t@[j as int]@)[k2] == other.h.t@[j as int]@[k2] as int);
                }
                assert(idxs(lst@) =~= ren_seq(ftb, gsb, nfv, idx_lists(other.h.t@)[j as int]));
                assert forall|k2: int| 0 <= k2 < mf implies #[trigger] idxs(new_ht@[k2]@)
                    == idx_lists(self.h.t@)[k2] by {
                    assert(new_ht@[k2] == ht0[k2]);
                }
                assert forall|k2: int| 0 <= k2 < j + 1 implies #[trigger] idxs(new_ht@[mf + k2]@)
                    == ren_seq(ftb, gsb, nfv, idx_lists(other.h.t@)[k2]) by {
                    if k2 < j {
                        assert(new_ht@[mf + k2] == ht0[mf + k2]);
                    } else {
                        assert(new_ht@[mf + k2] == lst);
                    }
                }
            }
            j = j + 1;
        }
        let new_t = apply_ren(&ren, &other.t);
        let new_s = copy_idxs(&self.s);
        let c = OpenHypergraph {
            s: new_s,
            t: new_t,
            h: Hypergraph { w: new_w, x: new_x, s: new_hs, t: new_ht },
        };
        proof {
            let fv = self@;
            let gv = other@;
            let cv = c@;
            assert(cv.s =~= fv.s);
            assert forall|k2: int| 0 <= k2 < gv.t.len() implies #[trigger] cv.t[k2] == ren_seq(
                ftb,
                gsb,
                nfv,
                gv.t,
            )[k2] by {
                assert(new_t@[k2] == ren@[other.t@[k2] as int]);
                assert(idxs(new_t@)[k2] == new_t@[k2] as int);
                assert((ren@[other.t@[k2] as int] as int) == ren_at(
                    ftb,
                    gsb,
                    nfv,
                    other.t@[k2] as int,
                ));
                assert(idxs(other.t@)[k2] == other.t@[k2] as int);
            }
            assert(cv.t =~= ren_seq(ftb, gsb, nfv, gv.t));
            assert(cv.h.x == fv.h.x + gv.h.x);
            assert(cv.h.w == fv.h.w + fresh_labels(gv.h.w, gsb, ng as int));
            assert forall|j2: int| 0 <= j2 < fv.h.x.len() implies #[trigger] cv.h.s[j2]
                == fv.h.s[j2] && #[trigger] cv.h.t[j2] == fv.h.t[j2] by {
                assert(idx_lists(new_hs@)[j2] == idxs(new_hs@[j2]@));
                assert(idx_lists(new_ht@)[j2] == idxs(new_ht@[j2]@));
            }
            assert forall|j2: int| 0 <= j2 < gv.h.x.len() implies #[trigger] cv.h.s[mf + j2]
                == ren_seq(ftb, gsb, nfv, gv.h.s[j2]) && #[trigger] cv.h.t[mf + j2] == ren_seq(
                ftb,
                gsb,
                nfv,
                gv.h.t[j2],
            ) by {
                assert(idx_lists(new_hs@)[mf + j2] == idxs(new_hs@[mf + j2]@));
                assert(idx_lists(new_ht@)[mf + j2] == idxs(new_ht@[mf + j2]@));
            }
            // Well-formedness of the composite.
            assert(cv.h.w.len() == nfv + n_fresh(gsb, ng as int));
            assert forall|j2: int| 0 <= j2 < cv.h.x.len() implies (#[trigger] cv.h.s[j2]).len()
                == cv.h.x[j2].arity() by {
                if j2 < fv.h.x.len() {
                    assert(cv.h.s[j2] == fv.h.s[j2]);
                } else {
                    let g2 = j2 - fv.h.x.len();
                    assert(cv.h.s[mf + g2] == ren_seq(ftb, gsb, nfv, gv.h.s[g2]));
                    assert(cv.h.x[j2] == gv.h.x[g2]);
                }
            }
            assert forall|j2: int| 0 <= j2 < cv.h.x.len() implies (#[trigger] cv.h.t[j2]).len()
                == cv.h.x[j2].coarity() by {
                if j2 < fv.h.x.len() {
                    assert(cv.h.t[j2] == fv.h.t[j2]);
                } else {
                    let g2 = j2 - fv.h.x.len();
                    assert(cv.h.t[mf + g2] == ren_seq(ftb, gsb, nfv, gv.h.t[g2]));
                    assert(cv.h.x[j2] == gv.h.x[g2]);
                }
            }
            assert forall|j2: int, k2: int|
                0 <= j2 < cv.h.s.len() && 0 <= k2 < cv.h.s[j2].len() implies 0 <= #[trigger] cv.h.s[j2][k2]
                < cv.h.w.len() by {
                if j2 < fv.h.x.len() {
                    assert(cv.h.s[j2] == fv.h.s[j2]);
                    assert(0 <= fv.h.s[j2][k2] < fv.h.w.len());
                } else {
                    let g2 = j2 - fv.h.x.len();
                    assert(cv.h.s[mf + g2] == ren_seq(ftb, gsb, nfv, gv.h.s[g2]));
                    assert(0 <= gv.h.s[g2][k2] < gv.h.w.len());
                    lemma_ren_label(fv, gv, gv.h.s[g2][k2]);
                }
            }
            assert forall|j2: int, k2: int|
                0 <= j2 < cv.h.t.len() && 0 <= k2 < cv.h.t[j2].len() implies 0 <= #[trigger] cv.h.t[j2][k2]
                < cv.h.w.len() by {
                if j2 < fv.h.x.len() {
                    assert(cv.h.t[j2] == fv.h.t[j2]);
                    assert(0 <= fv.h.t[j2][k2] < fv.h.w.len());
                } else {
                    let g2 = j2 - fv.h.x.len();
                    assert(cv.h.t[mf + g2] == ren_seq(ftb, gsb, nfv, gv.h.t[g2]));
                    assert(0 <= gv.h.t[g2][k2] < gv.h.w.len());
                    lemma_ren_label(fv, gv, gv.h.t[g2][k2]);
                }
            }
            assert forall|i2: int| 0 <= i2 < cv.s.len() implies 0 <= #[trigger] cv.s[i2]
                < cv.h.w.len() by {
                assert(cv.s[i2] == fv.s[i2]);
                assert(0 <= fv.s[i2] < fv.h.w.len());
            }
            assert forall|i2: int| 0 <= i2 < cv.t.len() implies 0 <= #[trigger] cv.t[i2]
                < cv.h.w.len() by {
                assert(cv.t[i2] == ren_at(ftb, gsb, nfv, gv.t[i2]));
                assert(0 <= gv.t[i2] < gv.h.w.len());
                lemma_ren_label(fv, gv, gv.t[i2]);
            }
            assert(cv.h.s.len() == cv.h.x.len());
            assert(cv.h.t.len() == cv.h.x.len());
            assert(cv.wf());
            assert forall|i2: int| 0 <= i2 < cv.s.len() implies #[trigger] cv.s_types()[i2]
                == fv.s_types()[i2] by {
                assert(cv.s[i2] == fv.s[i2]);
                assert(0 <= fv.s[i2] < fv.h.w.len());
            }
            assert(cv.s_types() =~= fv.s_types());
            assert forall|i2: int| 0 <= i2 < cv.t.len() implies #[trigger] cv.t_types()[i2]
                == gv.t_types()[i2] by {
                assert(cv.t[i2] == ren_at(ftb, gsb, nfv, gv.t[i2]));
                assert(0 <= gv.t[i2] < gv.h.w.len());
                lemma_ren_label(fv, gv, gv.t[i2]);
            }
            assert(cv.t_types() =~= gv.t_types());
            assert forall|j2: int| 0 <= j2 < cv.h.s.len() implies cv.h.s[j2] == compose_spec(
                fv,
                gv,
            ).h.s[j2] by {
                if j2 >= fv.h.s.len() {
                    let g2 = j2 - fv.h.s.len();
                    assert(cv.h.s[mf + g2] == ren_seq(ftb, gsb, nfv, gv.h.s[g2]));
                }
            }
            assert(cv.h.s =~= compose_spec(fv, gv).h.s);
            assert forall|j2: int| 0 <= j2 < cv.h.t.len() implies cv.h.t[j2] == compose_spec(
                fv,
                gv,
            ).h.t[j2] by {
                if j2 >= fv.h.t.len() {
                    let g2 = j2 - fv.h.t.len();
                    assert(cv.h.t[mf + g2] == ren_seq(ftb, gsb, nfv, gv.h.t[g2]));
                }
            }
            assert(cv.h.t =~= compose_spec(fv, gv).h.t);
            assert(cv =~~= compose_spec(fv, gv));
        }
        Ok(c)
    }
}

/// `u` cannot occur in `bnd` when every entry of `bnd` lies below `u`.
pub proof fn lemma_no_match_above(bnd: Seq<int>, cap: int, u: int)
    requires
        forall|k: int| 0 <= k < bnd.len() ==> #[trigger] bnd[k] < cap,
        cap <= u,
    ensures
        last_match(bnd, u) == -1,
{
    lemma_last_match(bnd, u);
    if last_match(bnd, u) >= 0 {
        assert(bnd[last_match(bnd, u)] == u);
    }
}

/// Beyond every entry of `bnd`, each further wire is fresh.
pub proof fn lemma_fresh_above(bnd: Seq<int>, cap: int, v: int)
    requires
        forall|k: int| 0 <= k < bnd.len() ==> #[trigger] bnd[k] < cap,
        0 <= cap <= v,
    ensures
        n_fresh(bnd, v) == n_fresh(bnd, cap) + (v - cap),
    decreases v,
{
    if v > cap {
        lemma_no_match_above(bnd, cap, v - 1);
        lemma_fresh_above(bnd, cap, v - 1);
    }
}

/// `fresh_labels` reads only the labels below `upto`.
pub proof fn lemma_fresh_labels_prefix(w1: Seq<Obj>, w2: Seq<Obj>, bnd: Seq<int>, upto: int)
    requires
        upto <= w1.len(),
    ensures
        fresh_labels(w1 + w2, bnd, upto) == fresh_labels(w1, bnd, upto),
    decreases upto,
{
    if upto > 0 {
        lemma_fresh_labels_prefix(w1, w2, bnd, upto - 1);
        assert((w1 + w2)[upto - 1] == w1[upto - 1]);
    }
}

/// Past every entry of `bnd`, `fresh_labels` copies the labels in order.
pub proof fn lemma_fresh_labels_above(w: Seq<Obj>, bnd: Seq<int>, cap: int, v: int)
    requires
        forall|k: int| 0 <= k < bnd.len() ==> #[trigger] bnd[k] < cap,
        0 <= cap <= v,
        v <= w.len(),
    ensures
        fresh_labels(w, bnd, v) == fresh_labels(w, bnd, cap) + w.subrange(cap, v),
    decreases v,
{
    if v == cap {
        assert(w.subrange(cap, cap) =~= Seq::empty());
        assert(fresh_labels(w, bnd, cap) + Seq::empty() =~= fresh_labels(w, bnd, cap));
    } else {
        lemma_no_match_above(bnd, cap, v - 1);
        lemma_fresh_labels_above(w, bnd, cap, v - 1);
        assert((fresh_labels(w, bnd, cap) + w.subrange(cap, v - 1)).push(w[v - 1]) =~= fresh_labels(
            w,
            bnd,
            cap,
        ) + w.subrange(cap, v));
    }
}

/// The sequential composite of two diagrams as a mathematical value, exactly
/// as `compose` builds it.
pub open spec fn compose_spec(f: OpenHypergraphV, g: OpenHypergraphV) -> OpenHypergraphV {
    OpenHypergraphV {
        s: f.s,
        t: ren_seq(f.t, g.s, f.h.w.len() as int, g.t),
        h: HypergraphV {
            w: f.h.w + fresh_labels(g.h.w, g.s, g.h.w.len() as int),
            x: f.h.x + g.h.x,
            s: Seq::new(
                f.h.s.len() + g.h.s.len(),
                |j: int|
                    if j < f.h.s.len() {
                        f.h.s[j]
                    } else {
                        ren_seq(f.t, g.s, f.h.w.len() as int, g.h.s[j - f.h.s.len()])
                    },
            ),
            t: Seq::new(
                f.h.t.len() + g.h.t.len(),
                |j: int|
                    if j < f.h.t.len() {
                        f.h.t[j]
                    } else {
                        ren_seq(f.t, g.s, f.h.w.len() as int, g.h.t[j - f.h.t.len()])
                    },
            ),
        },
    }
}

/// The boundary types of a sequential composite: the first diagram's inputs
/// and the second's outputs.
pub proof fn lemma_compose_spec_types(f: OpenHypergraphV, g: OpenHypergraphV)
    requires
        f.wf(),
        g.wf(),
        composable(f, g),
    ensures
        compose_spec(f, g).s_types() == f.s_types(),
        compose_spec(f, g).t_types() == g.t_types(),
{
    let c = compose_spec(f, g);
    assert forall|i: int| 0 <= i < c.s.len() implies #[trigger] c.s_types()[i]
        == f.s_types()[i] by {
        assert(0 <= f.s[i] < f.h.w.len());
    }
    assert(c.s_types() =~= f.s_types());
    assert forall|i: int| 0 <= i < c.t.len() implies #[trigger] c.t_types()[i]
        == g.t_types()[i] by {
        assert(c.t[i] == ren_at(f.t, g.s, f.h.w.len() as int, g.t[i]));
        assert(0 <= g.t[i] < g.h.w.len());
        lemma_ren_label(f, g, g.t[i]);
    }
    assert(c.t_types() =~= g.t_types());
}

/// How the two renamings of a three-fold composite combine: gluing `h` onto
/// `f ; g` sends each wire of `h` where gluing `g ; h` and then `f` does.
pub proof fn lemma_ren_compose(
    ftb: Seq<int>,
    gsb: Seq<int>,
    gtb: Seq<int>,
    hsb: Seq<int>,
    nf: int,
    ng: int,
    u: int,
)
    requires
        forall|k: int| 0 <= k < gsb.len() ==> 0 <= #[trigger] gsb[k] < ng,
        gtb.len() == hsb.len(),
        0 <= ng,
        0 <= u,
    ensures
        ren_at(ren_seq(ftb, gsb, nf, gtb), hsb, nf + n_fresh(gsb, ng), u) == ren_at(
            ftb,
            gsb,
            nf,
            ren_at(gtb, hsb, ng, u),
        ),
{
    let lm = last_match(hsb, u);
    lemma_last_match(hsb, u);
    if lm >= 0 {
        assert(ren_seq(ftb, gsb, nf, gtb)[lm] == ren_at(ftb, gsb, nf, gtb[lm]));
    } else {
        lemma_fresh_props(Seq::empty(), hsb, u);
        let v = ng + n_fresh(hsb, u);
        lemma_no_match_above(gsb, ng, v);
        lemma_fresh_above(gsb, ng, v);
    }
}

/// Sequential composition is associative, exactly: for composable diagrams
/// the two ways of grouping build the same composite, wire for wire.
pub proof fn lemma_compose_assoc(f: OpenHypergraphV, g: OpenHypergraphV, h: OpenHypergraphV)
    requires
        f.wf(),
        g.wf(),
        h.wf(),
        composable(f, g),
        composable(g, h),
    ensures
        composable(compose_spec(f, g), h),
        composable(f, compose_spec(g, h)),
        compose_spec(compose_spec(f, g), h) == compose_spec(f, compose_spec(g, h)),
{
    let nf = f.h.w.len() as int;
    let ng = g.h.w.len() as int;
    let nh = h.h.w.len() as int;
    lemma_compose_spec_types(f, g);
    lemma_compose_spec_types(g, h);
    let fg = compose_spec(f, g);
    let gh = compose_spec(g, h);
    assert(composable(fg, h));
    assert(gh.s_types() =~= g.s_types()) by {
        assert forall|i: int| 0 <= i < gh.s.len() implies #[trigger] gh.s_types()[i]
            == g.s_types()[i] by {
            assert(0 <= g.s[i] < g.h.w.len());
        }
    }
    assert(composable(f, gh));
    let l = compose_spec(fg, h);
    let r = compose_spec(f, gh);
    lemma_fresh_props(h.h.w, h.s, nh);
    let fh = fresh_labels(h.h.w, h.s, nh);
    let fhn = n_fresh(h.s, nh);
    // The wire lists agree.
    assert(l.h.w =~= r.h.w) by {
        assert forall|k: int| 0 <= k < g.s.len() implies 0 <= #[trigger] g.s[k] < ng by {}
        lemma_fresh_labels_above(g.h.w + fh, g.s, ng, ng + fhn);
        lemma_fresh_labels_prefix(g.h.w, fh, g.s, ng);
        assert((g.h.w + fh).subrange(ng, ng + fhn) =~= fh);
        assert(r.h.w =~= f.h.w + (fresh_labels(g.h.w, g.s, ng) + fh));
    }
    // The hyperedge labels agree.
    assert(l.h.x =~= r.h.x);
    // The boundaries agree.
    assert(l.s =~= r.s);
    let n_fg = nf + n_fresh(g.s, ng);
    assert(fg.h.w.len() == n_fg) by {
        lemma_fresh_props(g.h.w, g.s, ng);
    }
    assert(gh.s == g.s);
    assert forall|u: int| 0 <= u implies #[trigger] ren_at(fg.t, h.s, n_fg, u) == ren_at(
        f.t,
        g.s,
        nf,
        ren_at(g.t, h.s, ng, u),
    ) by {
        assert forall|k: int| 0 <= k < g.s.len() implies 0 <= #[trigger] g.s[k] < ng by {}
        assert(g.t.len() == h.s.len()) by {
            assert(g.t_types().len() == h.s_types().len());
        }
        lemma_ren_compose(f.t, g.s, g.t, h.s, nf, ng, u);
        assert(fg.t == ren_seq(f.t, g.s, nf, g.t));
    }
    assert(l.t =~= r.t) by {
        assert forall|i: int| 0 <= i < h.t.len() implies l.t[i] == r.t[i] by {
            assert(0 <= h.t[i] < nh);
            assert(l.t[i] == ren_at(fg.t, h.s, n_fg, h.t[i]));
            assert(r.t[i] == ren_at(f.t, g.s, nf, gh.t[i]));
            assert(gh.t[i] == ren_at(g.t, h.s, ng, h.t[i]));
        }
    }
    // The per-hyperedge wire lists agree.
    let mf = f.h.s.len() as int;
    let mg = g.h.s.len() as int;
    let mh = h.h.s.len() as int;
    assert(l.h.s =~~= r.h.s) by {
        assert forall|j: int| 0 <= j < mf + mg + mh implies l.h.s[j] =~= r.h.s[j] by {
            if j < mf {
                assert(l.h.s[j] == fg.h.s[j]);
                assert(fg.h.s[j] == f.h.s[j]);
                assert(r.h.s[j] == f.h.s[j]);
            } else if j < mf + mg {
                let j2 = j - mf;
                assert(l.h.s[j] == fg.h.s[j]);
                assert(fg.h.s[j] == ren_seq(f.t, g.s, nf, g.h.s[j2]));
                assert(r.h.s[j] == ren_seq(f.t, g.s, nf, gh.h.s[j2]));
                assert(gh.h.s[j2] == g.h.s[j2]);
            } else {
                let j2 = j - mf - mg;
                assert(l.h.s[j] == ren_seq(fg.t, h.s, n_fg, h.h.s[j2]));
                assert(r.h.s[j] == ren_seq(f.t, g.s, nf, gh.h.s[mg + j2]));
                assert(gh.h.s[mg + j2] == ren_seq(g.t, h.s, ng, h.h.s[j2]));
                assert forall|k: int| 0 <= k < h.h.s[j2].len() implies ren_seq(
                    fg.t,
                    h.s,
                    n_fg,
                    h.h.s[j2],
                )[k] == ren_seq(f.t, g.s, nf, ren_seq(g.t, h.s, ng, h.h.s[j2]))[k] by {
                    assert(0 <= h.h.s[j2][k] < nh);
                    assert(ren_at(fg.t, h.s, n_fg, h.h.s[j2][k]) == ren_at(
                        f.t,
                        g.s,
                        nf,
                        ren_at(g.t, h.s, ng, h.h.s[j2][k]),
                    ));
                }
            }
        }
    }
    assert(l.h.t =~~= r.h.t) by {
        assert forall|j: int| 0 <= j < mf + mg + mh implies l.h.t[j] =~= r.h.t[j] by {
            if j < mf {
                assert(l.h.t[j] == fg.h.t[j]);
                assert(fg.h.t[j] == f.h.t[j]);
                assert(r.h.t[j] == f.h.t[j]);
            } else if j < mf + mg {
                let j2 = j - mf;
                assert(l.h.t[j] == fg.h.t[j]);
                assert(fg.h.t[j] == ren_seq(f.t, g.s, nf, g.h.t[j2]));
                assert(r.h.t[j] == ren_seq(f.t, g.s, nf, gh.h.t[j2]));
                assert(gh.h.t[j2] == g.h.t[j2]);
            } else {
                let j2 = j - mf - mg;
                assert(l.h.t[j] == ren_seq(fg.t, h.s, n_fg, h.h.t[j2]));
                assert(r.h.t[j] == ren_seq(f.t, g.s, nf, gh.h.t[mg + j2]));
                assert(gh.h.t[mg + j2] == ren_seq(g.t, h.s, ng, h.h.t[j2]));
                assert forall|k: int| 0 <= k < h.h.t[j2].len() implies ren_seq(
                    fg.t,
                    h.s,
                    n_fg,
                    h.h.t[j2],
                )[k] == ren_seq(f.t, g.s, nf, ren_seq(g.t, h.s, ng, h.h.t[j2]))[k] by {
                    assert(0 <= h.h.t[j2][k] < nh);
                    assert(ren_at(fg.t, h.s, n_fg, h.h.t[j2][k]) == ren_at(
                        f.t,
                        g.s,
                        nf,
                        ren_at(g.t, h.s, ng, h.h.t[j2][k]),
                    ));
                }
            }
        }
    }
    assert(l =~~= r);
}

/// `last_match` over a concatenation: a position in the right part wins.
pub proof fn lemma_last_match_concat(a: Seq<int>, b: Seq<int>, u: int)
    ensures
        last_match(a + b, u) == if last_match(b, u) >= 0 {
            a.len() + last_match(b, u)
        } else {
            last_match(a, u)
        },
    decreases b.len(),
{
    if b.len() == 0 {
        assert(a + b =~= a);
    } else {
        assert((a + b).last() == b.last());
        assert((a + b).drop_last() =~= a + b.drop_last());
        lemma_last_match_concat(a, b.drop_last(), u);
    }
}

/// A shifted boundary has no occurrence below the shift.
pub proof fn lemma_last_match_shifted_low(b: Seq<int>, c: int, u: int)
    requires
        forall|x: int| 0 <= x < b.len() ==> #[trigger] b[x] >= 0,
        u < c,
    ensures
        last_match(shifted(b, c), u) == -1,
{
    lemma_last_match(shifted(b, c), u);
    if last_match(shifted(b, c), u) >= 0 {
        assert(shifted(b, c)[last_match(shifted(b, c), u)] == u);
    }
}

/// Shifting a boundary shifts the values it matches, not the positions.
pub proof fn lemma_last_match_shifted(b: Seq<int>, c: int, e: int)
    ensures
        last_match(shifted(b, c), c + e) == last_match(b, e),
    decreases b.len(),
{
    if b.len() == 0 {
        assert(shifted(b, c).len() == 0);
    } else {
        assert(shifted(b, c).last() == b.last() + c);
        assert(shifted(b, c).drop_last() =~= shifted(b.drop_last(), c));
        lemma_last_match_shifted(b.drop_last(), c, e);
    }
}

/// Boundaries that mark the same wires keep the same wires fresh.
pub proof fn lemma_n_fresh_congruent(b1: Seq<int>, b2: Seq<int>, v: int)
    requires
        forall|u: int|
            0 <= u < v ==> (last_match(b1, u) == -1 <==> #[trigger] last_match(b2, u) == -1),
    ensures
        n_fresh(b1, v) == n_fresh(b2, v),
    decreases v,
{
    if v > 0 {
        lemma_n_fresh_congruent(b1, b2, v - 1);
    }
}

/// Boundaries that mark the same wires, over label lists that agree, keep the
/// same fresh labels.
pub proof fn lemma_fresh_labels_congruent(
    w1: Seq<Obj>,
    b1: Seq<int>,
    w2: Seq<Obj>,
    b2: Seq<int>,
    v: int,
)
    requires
        forall|u: int|
            0 <= u < v ==> (last_match(b1, u) == -1 <==> #[trigger] last_match(b2, u) == -1),
        forall|u: int| 0 <= u < v ==> w1[u] == #[trigger] w2[u],
    ensures
        fresh_labels(w1, b1, v) == fresh_labels(w2, b2, v),
    decreases v,
{
    if v > 0 {
        lemma_fresh_labels_congruent(w1, b1, w2, b2, v - 1);
    }
}

/// Above the first block, freshness against a two-block boundary counts
/// against the second block alone.
pub proof fn lemma_n_fresh_concat_high(gsb: Seq<int>, ksb: Seq<int>, ng: int, e: int)
    requires
        forall|x: int| 0 <= x < gsb.len() ==> 0 <= #[trigger] gsb[x] < ng,
        forall|x: int| 0 <= x < ksb.len() ==> 0 <= #[trigger] ksb[x],
        0 <= ng,
        0 <= e,
    ensures
        n_fresh(gsb + shifted(ksb, ng), ng + e) == n_fresh(gsb + shifted(ksb, ng), ng) + n_fresh(
            ksb,
            e,
        ),
    decreases e,
{
    if e > 0 {
        let bb = gsb + shifted(ksb, ng);
        lemma_n_fresh_concat_high(gsb, ksb, ng, e - 1);
        lemma_last_match_concat(gsb, shifted(ksb, ng), ng + e - 1);
        assert(last_match(shifted(ksb, ng), ng + e - 1) == last_match(ksb, e - 1)) by {
            lemma_last_match_shifted(ksb, ng, e - 1);
            assert(ng + (e - 1) == ng + e - 1);
        }
        lemma_last_match(ksb, e - 1);
        lemma_last_match(gsb, ng + e - 1);
        if last_match(gsb, ng + e - 1) >= 0 {
            assert(gsb[last_match(gsb, ng + e - 1)] == ng + e - 1);
        }
        assert(last_match(bb, ng + e - 1) == -1 <==> last_match(ksb, e - 1) == -1);
        assert(n_fresh(bb, ng + e) == n_fresh(bb, (ng + e) - 1) + if last_match(
            bb,
            (ng + e) - 1,
        ) == -1 {
            1int
        } else {
            0int
        });
        assert(n_fresh(ksb, e) == n_fresh(ksb, e - 1) + if last_match(ksb, e - 1) == -1 {
            1int
        } else {
            0int
        });
    }
}

/// Above the first block, the fresh labels against a two-block boundary are
/// the second block's fresh labels.
pub proof fn lemma_fresh_labels_concat_high(
    gw: Seq<Obj>,
    kw: Seq<Obj>,
    gsb: Seq<int>,
    ksb: Seq<int>,
    e: int,
)
    requires
        forall|x: int| 0 <= x < gsb.len() ==> 0 <= #[trigger] gsb[x] < gw.len(),
        forall|x: int| 0 <= x < ksb.len() ==> 0 <= #[trigger] ksb[x],
        0 <= e <= kw.len(),
    ensures
        fresh_labels(gw + kw, gsb + shifted(ksb, gw.len() as int), gw.len() + e) == fresh_labels(
            gw + kw,
            gsb + shifted(ksb, gw.len() as int),
            gw.len() as int,
        ) + fresh_labels(kw, ksb, e),
    decreases e,
{
    let ng = gw.len() as int;
    let bb = gsb + shifted(ksb, ng);
    if e == 0 {
        assert(fresh_labels(kw, ksb, 0) =~= Seq::<Obj>::empty());
        assert(fresh_labels(gw + kw, bb, ng) + Seq::<Obj>::empty() =~= fresh_labels(
            gw + kw,
            bb,
            ng,
        ));
    } else {
        lemma_fresh_labels_concat_high(gw, kw, gsb, ksb, e - 1);
        lemma_last_match_concat(gsb, shifted(ksb, ng), ng + e - 1);
        assert(last_match(shifted(ksb, ng), ng + e - 1) == last_match(ksb, e - 1)) by {
            lemma_last_match_shifted(ksb, ng, e - 1);
            assert(ng + (e - 1) == ng + e - 1);
        }
        lemma_last_match(ksb, e - 1);
        lemma_last_match(gsb, ng + e - 1);
        if last_match(gsb, ng + e - 1) >= 0 {
            assert(gsb[last_match(gsb, ng + e - 1)] == ng + e - 1);
        }
        assert(last_match(bb, ng + e - 1) == -1 <==> last_match(ksb, e - 1) == -1) by {
            if last_match(ksb, e - 1) >= 0 {
                assert(last_match(bb, ng + e - 1) == gsb.len() + last_match(ksb, e - 1));
            } else {
                assert(last_match(bb, ng + e - 1) == last_match(gsb, ng + e - 1));
            }
        }
        assert((gw + kw)[ng + e - 1] == kw[e - 1]);
        if last_match(ksb, e - 1) == -1 {
            assert(fresh_labels(gw + kw, bb, ng + e) == fresh_labels(gw + kw, bb, (ng + e)
                - 1).push((gw + kw)[(ng + e) - 1]));
            assert(fresh_labels(kw, ksb, e) == fresh_labels(kw, ksb, e - 1).push(kw[e - 1]));
            assert((fresh_labels(gw + kw, bb, ng) + fresh_labels(kw, ksb, e - 1)).push(
                kw[e - 1],
            ) =~= fresh_labels(gw + kw, bb, ng) + fresh_labels(kw, ksb, e - 1).push(kw[e - 1]));
        } else {
            assert(fresh_labels(gw + kw, bb, ng + e) == fresh_labels(gw + kw, bb, (ng + e) - 1));
            assert(fresh_labels(kw, ksb, e) == fresh_labels(kw, ksb, e - 1));
        }
    }
}

/// The boundary types of a parallel composite: the two parts side by side.
pub proof fn lemma_tensor_spec_types(f: OpenHypergraphV, g: OpenHypergraphV)
    requires
        f.wf(),
        g.wf(),
    ensures
        tensor_spec(f, g).s_types() == f.s_types() + g.s_types(),
        tensor_spec(f, g).t_types() == f.t_types() + g.t_types(),
{
    let c = tensor_spec(f, g);
    assert forall|i: int| 0 <= i < c.s.len() implies #[trigger] c.s_types()[i] == (f.s_types()
        + g.s_types())[i] by {
        if i < f.s.len() {
            assert(c.s[i] == f.s[i]);
            assert(0 <= f.s[i] < f.h.w.len());
        } else {
            assert(c.s[i] == g.s[i - f.s.len()] + f.h.w.len());
            assert(0 <= g.s[i - f.s.len()] < g.h.w.len());
        }
    }
    assert(c.s_types() =~= f.s_types() + g.s_types());
    assert forall|i: int| 0 <= i < c.t.len() implies #[trigger] c.t_types()[i] == (f.t_types()
        + g.t_types())[i] by {
        if i < f.t.len() {
            assert(c.t[i] == f.t[i]);
            assert(0 <= f.t[i] < f.h.w.len());
        } else {
            assert(c.t[i] == g.t[i - f.t.len()] + f.h.w.len());
            assert(0 <= g.t[i - f.t.len()] < g.h.w.len());
        }
    }
    assert(c.t_types() =~= f.t_types() + g.t_types());
}

} // verus!
