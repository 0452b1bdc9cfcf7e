//! The built-in example diagrams.

use vstd::prelude::*;
use vstd::pervasive::unreached;
use crate::circuit::{Obj, Arr};
use crate::diagram::OpenHypergraph;
use crate::diagram::{
    compose_spec, ren_seq, ren_at, n_fresh, fresh_labels, lemma_last_match_at,
    lemma_last_match_none,
};

verus! {

broadcast use crate::util::group_idx_views;

/// A single `And` gate on one-bit wires: one hyperedge, three fresh wires of
/// width one, the boundaries reading the hyperedge's own wire lists.
pub fn and() -> (r: OpenHypergraph)
    ensures
        r@.wf(),
        r@.h.x == seq![Arr::And],
        r@.h.w.len() == 3,
        forall|i: int| 0 <= i < r@.h.w.len() ==> (#[trigger] r@.h.w[i]).width() == 1,
        r@.s == seq![0int, 1int],
        r@.t == seq![2int],
        r@.h.s == seq![seq![0int, 1int]],
        r@.h.t == seq![seq![2int]],
{
    let o = Obj::new(1);
    let r = Arr::And.term(o);
    proof {
        assert(r@.s =~= seq![0int, 1int]);
        assert(r@.t =~= seq![2int]);
        assert(r@.h.s =~~= seq![seq![0int, 1int]]);
        assert(r@.h.t =~~= seq![seq![2int]]);
    }
    r
}

/// A `Copy` fanned into an `And`, on two-bit buses: the one external input
/// wire is copied, the two copies feed the `And` in order, and its output is
/// the one external output; four wires in all, each a two-bit bus.
pub fn copy_and() -> (r: OpenHypergraph)
    ensures
        r@.wf(),
        r@.h.x == seq![Arr::Copy, Arr::And],
        r@.h.w.len() == 4,
        forall|i: int| 0 <= i < r@.h.w.len() ==> (#[trigger] r@.h.w[i]).width() == 2,
        r@.s == seq![0int],
        r@.t == seq![3int],
        r@.h.s == seq![seq![0int], seq![1int, 2int]],
        r@.h.t == seq![seq![1int, 2int], seq![3int]],
{
    let o = Obj::new(2);
    let f = Arr::Copy.term(o);
    let g = Arr::And.term(o);
    proof {
        assert(f@.t_types() =~= g@.s_types());
    }
    match f.compose(&g) {
        Ok(r) => {
            proof {
                let fv = f@;
                let gv = g@;
                // Literal views of the two singletons.
                assert(fv.s =~= seq![0int]);
                assert(fv.t =~= seq![1int, 2int]);
                assert(fv.h.s =~~= seq![seq![0int]]);
                assert(fv.h.t =~~= seq![seq![1int, 2int]]);
                assert(gv.s =~= seq![0int, 1int]);
                assert(gv.t =~= seq![2int]);
                assert(gv.h.s =~~= seq![seq![0int, 1int]]);
                assert(gv.h.t =~~= seq![seq![2int]]);
                // Where the gluing sends each wire of the second diagram.
                lemma_last_match_at(gv.s, 0, 0);
                lemma_last_match_at(gv.s, 1, 1);
                lemma_last_match_none(gv.s, 2);
                assert(n_fresh(gv.s, 0) == 0);
                assert(n_fresh(gv.s, 1) == 0);
                assert(n_fresh(gv.s, 2) == 0);
                assert(n_fresh(gv.s, 3) == 1);
                assert(ren_at(fv.t, gv.s, 3, 0) == 1);
                assert(ren_at(fv.t, gv.s, 3, 1) == 2);
                assert(ren_at(fv.t, gv.s, 3, 2) == 3);
                assert(fresh_labels(gv.h.w, gv.s, 0) =~= Seq::<Obj>::empty());
                assert(fresh_labels(gv.h.w, gv.s, 1) =~= Seq::<Obj>::empty());
                assert(fresh_labels(gv.h.w, gv.s, 2) =~= Seq::<Obj>::empty());
                assert(fresh_labels(gv.h.w, gv.s, 3) =~= seq![gv.h.w[2]]);
                let cs = compose_spec(fv, gv);
                assert(r@ == cs);
                assert(r@.h.x =~= seq![Arr::Copy, Arr::And]);
                assert(r@.h.w =~= fv.h.w + seq![gv.h.w[2]]);
                assert(r@.s =~= seq![0int]);
                assert(ren_seq(fv.t, gv.s, 3, gv.t) =~= seq![3int]);
                assert(cs.h.s[0] == fv.h.s[0]);
                assert(cs.h.s[1] == ren_seq(fv.t, gv.s, 3, gv.h.s[0]));
                assert(ren_seq(fv.t, gv.s, 3, gv.h.s[0]) =~= seq![1int, 2int]);
                assert(r@.h.s =~~= seq![seq![0int], seq![1int, 2int]]);
                assert(cs.h.t[0] == fv.h.t[0]);
                assert(cs.h.t[1] == ren_seq(fv.t, gv.s, 3, gv.h.t[0]));
                assert(ren_seq(fv.t, gv.s, 3, gv.h.t[0]) =~= seq![3int]);
                assert(r@.h.t =~~= seq![seq![1int, 2int], seq![3int]]);
            }
            r
        },
        Err(_) => unreached(),
    }
}

/// The half-adder wiring at an arbitrary bus type: two `Copy`s side by side,
/// a crossing flanked by identities, and `And` beside `Xor`.  The two
/// external inputs are each copied; the `And` takes the two first copies in
/// order, the `Xor` the two second copies; the output boundary is the
/// `And` output then the `Xor` output.  Whatever the bus width, the diagram
/// has eight wires of that width and exactly these four hyperedges.
#[verifier::rlimit(100)]
pub fn half_adder_at(o: Obj) -> (r: OpenHypergraph)
    ensures
        r@.wf(),
        r@.h.x == seq![Arr::Copy, Arr::Copy, Arr::And, Arr::Xor],
        r@.h.w.len() == 8,
        forall|i: int| 0 <= i < r@.h.w.len() ==> #[trigger] r@.h.w[i] == o,
        r@.s == seq![0int, 3int],
        r@.t == seq![6int, 7int],
        r@.h.s == seq![seq![0int], seq![3int], seq![1int, 4int], seq![2int, 5int]],
        r@.h.t == seq![seq![1int, 2int], seq![4int, 5int], seq![6int], seq![7int]],
{
    let c1 = Arr::Copy.term(o);
    let c2 = Arr::Copy.term(o);
    let copies = c1.tensor(&c2);
    proof {
        assert(c1@.s =~= seq![0int]);
        assert(c1@.t =~= seq![1int, 2int]);
        assert(c1@.h.s =~~= seq![seq![0int]]);
        assert(c1@.h.t =~~= seq![seq![1int, 2int]]);
        assert(c2@.s =~= seq![0int]);
        assert(c2@.t =~= seq![1int, 2int]);
        assert(c2@.h.s =~~= seq![seq![0int]]);
        assert(c2@.h.t =~~= seq![seq![1int, 2int]]);
        assert(copies@.s =~= seq![0int, 3int]);
        assert(copies@.t =~= seq![1int, 2int, 4int, 5int]);
        assert(copies@.h.x =~= seq![Arr::Copy, Arr::Copy]);
        assert(copies@.h.s =~~= seq![seq![0int], seq![3int]]);
        assert(copies@.h.t =~~= seq![seq![1int, 2int], seq![4int, 5int]]);
        assert(copies@.h.w.len() == 6);
        assert forall|i: int| 0 <= i < copies@.h.w.len() implies #[trigger] copies@.h.w[i]
            == o by {
            if i < 3 {
                assert(copies@.h.w[i] == c1@.h.w[i]);
            } else {
                assert(copies@.h.w[i] == c2@.h.w[i - 3]);
            }
        }
    }
    let mut v1: Vec<Obj> = Vec::new();
    v1.push(o);
    let id1 = OpenHypergraph::identity(v1);
    let mut va: Vec<Obj> = Vec::new();
    va.push(o);
    let mut vb: Vec<Obj> = Vec::new();
    vb.push(o);
    let tw = OpenHypergraph::twist(va, vb);
    let mut v2: Vec<Obj> = Vec::new();
    v2.push(o);
    let id2 = OpenHypergraph::identity(v2);
    let m1 = id1.tensor(&tw);
    let middle = m1.tensor(&id2);
    proof {
        assert(id1@.s =~= seq![0int]);
        assert(id1@.t =~= seq![0int]);
        assert(tw@.s =~= seq![0int, 1int]);
        assert(tw@.t =~= seq![1int, 0int]);
        assert(id2@.s =~= seq![0int]);
        assert(id2@.t =~= seq![0int]);
        assert(m1@.s =~= seq![0int, 1int, 2int]);
        assert(m1@.t =~= seq![0int, 2int, 1int]);
        assert(m1@.h.x.len() == 0);
        assert(m1@.h.s.len() == 0);
        assert(m1@.h.t.len() == 0);
        assert(m1@.h.w.len() == 3);
        assert(middle@.s =~= seq![0int, 1int, 2int, 3int]);
        assert(middle@.t =~= seq![0int, 2int, 1int, 3int]);
        assert(middle@.h.x.len() == 0);
        assert(middle@.h.s.len() == 0);
        assert(middle@.h.t.len() == 0);
        assert(middle@.h.w.len() == 4);
        assert forall|i: int| 0 <= i < middle@.h.w.len() implies #[trigger] middle@.h.w[i]
            == o by {
            if i < 1 {
                assert(middle@.h.w[i] == id1@.h.w[i]);
            } else if i < 3 {
                assert(middle@.h.w[i] == tw@.h.w[i - 1]);
            } else {
                assert(middle@.h.w[i] == id2@.h.w[i - 3]);
            }
        }
        assert(copies@.t_types() =~= middle@.s_types());
    }
    let first = match copies.compose(&middle) {
        Ok(c) => c,
        Err(_) => unreached(),
    };
    proof {
        let ms = middle@.s;
        lemma_last_match_at(ms, 0, 0);
        lemma_last_match_at(ms, 1, 1);
        lemma_last_match_at(ms, 2, 2);
        lemma_last_match_at(ms, 3, 3);
        assert(n_fresh(ms, 0) == 0);
        assert(n_fresh(ms, 1) == 0);
        assert(n_fresh(ms, 2) == 0);
        assert(n_fresh(ms, 3) == 0);
        assert(n_fresh(ms, 4) == 0);
        assert(fresh_labels(middle@.h.w, ms, 0) =~= Seq::<Obj>::empty());
        assert(fresh_labels(middle@.h.w, ms, 1) =~= Seq::<Obj>::empty());
        assert(fresh_labels(middle@.h.w, ms, 2) =~= Seq::<Obj>::empty());
        assert(fresh_labels(middle@.h.w, ms, 3) =~= Seq::<Obj>::empty());
        assert(fresh_labels(middle@.h.w, ms, 4) =~= Seq::<Obj>::empty());
        assert(copies@.h.w.len() == 6);
        assert(ren_at(copies@.t, ms, 6, 0) == 1);
        assert(ren_at(copies@.t, ms, 6, 1) == 2);
        assert(ren_at(copies@.t, ms, 6, 2) == 4);
        assert(ren_at(copies@.t, ms, 6, 3) == 5);
        let cs = compose_spec(copies@, middle@);
        assert(first@ == cs);
        assert(first@.h.w =~= copies@.h.w);
        assert(first@.h.x =~= seq![Arr::Copy, Arr::Copy]);
        assert(cs.h.s[0] == copies@.h.s[0]);
        assert(cs.h.s[1] == copies@.h.s[1]);
        assert(first@.h.s =~~= seq![seq![0int], seq![3int]]);
        assert(cs.h.t[0] == copies@.h.t[0]);
        assert(cs.h.t[1] == copies@.h.t[1]);
        assert(first@.h.t =~~= seq![seq![1int, 2int], seq![4int, 5int]]);
        assert(first@.s =~= seq![0int, 3int]);
        assert(ren_seq(copies@.t, ms, 6, middle@.t) =~= seq![1int, 4int, 2int, 5int]);
        assert(first@.t =~= seq![1int, 4int, 2int, 5int]);
    }
    let a1 = Arr::And.term(o);
    let x1 = Arr::Xor.term(o);
    let and_xor = a1.tensor(&x1);
    proof {
        assert(a1@.s =~= seq![0int, 1int]);
        assert(a1@.t =~= seq![2int]);
        assert(a1@.h.s =~~= seq![seq![0int, 1int]]);
        assert(a1@.h.t =~~= seq![seq![2int]]);
        assert(x1@.s =~= seq![0int, 1int]);
        assert(x1@.t =~= seq![2int]);
        assert(x1@.h.s =~~= seq![seq![0int, 1int]]);
        assert(x1@.h.t =~~= seq![seq![2int]]);
        assert(and_xor@.s =~= seq![0int, 1int, 3int, 4int]);
        assert(and_xor@.t =~= seq![2int, 5int]);
        assert(and_xor@.h.x =~= seq![Arr::And, Arr::Xor]);
        assert(and_xor@.h.s =~~= seq![seq![0int, 1int], seq![3int, 4int]]);
        assert(and_xor@.h.t =~~= seq![seq![2int], seq![5int]]);
        assert(and_xor@.h.w.len() == 6);
        assert forall|i: int| 0 <= i < and_xor@.h.w.len() implies #[trigger] and_xor@.h.w[i]
            == o by {
            if i < 3 {
                assert(and_xor@.h.w[i] == a1@.h.w[i]);
            } else {
                assert(and_xor@.h.w[i] == x1@.h.w[i - 3]);
            }
        }
        assert(first@.t_types() =~= and_xor@.s_types());
    }
    match first.compose(&and_xor) {
        Ok(r) => {
            proof {
                let axs = and_xor@.s;
                lemma_last_match_at(axs, 0, 0);
                lemma_last_match_at(axs, 1, 1);
                lemma_last_match_at(axs, 3, 2);
                lemma_last_match_at(axs, 4, 3);
                lemma_last_match_none(axs, 2);
                lemma_last_match_none(axs, 5);
                assert(n_fresh(axs, 0) == 0);
                assert(n_fresh(axs, 1) == 0);
                assert(n_fresh(axs, 2) == 0);
                assert(n_fresh(axs, 3) == 1);
                assert(n_fresh(axs, 4) == 1);
                assert(n_fresh(axs, 5) == 1);
                assert(n_fresh(axs, 6) == 2);
                let axw = and_xor@.h.w;
                assert(fresh_labels(axw, axs, 0) =~= Seq::<Obj>::empty());
                assert(fresh_labels(axw, axs, 1) =~= Seq::<Obj>::empty());
                assert(fresh_labels(axw, axs, 2) =~= Seq::<Obj>::empty());
                assert(fresh_labels(axw, axs, 3) =~= seq![axw[2]]);
                assert(fresh_labels(axw, axs, 4) =~= seq![axw[2]]);
                assert(fresh_labels(axw, axs, 5) =~= seq![axw[2]]);
                assert(fresh_labels(axw, axs, 6) =~= seq![axw[2], axw[5]]);
                assert(first@.h.w.len() == 6);
                assert(ren_at(first@.t, axs, 6, 0) == 1);
                assert(ren_at(first@.t, axs, 6, 1) == 4);
                assert(ren_at(first@.t, axs, 6, 2) == 6);
                assert(ren_at(first@.t, axs, 6, 3) == 2);
                assert(ren_at(first@.t, axs, 6, 4) == 5);
                assert(ren_at(first@.t, axs, 6, 5) == 7);
                let cs = compose_spec(first@, and_xor@);
                assert(r@ == cs);
                assert(r@.h.x =~= seq![Arr::Copy, Arr::Copy, Arr::And, Arr::Xor]);
                assert(r@.h.w =~= first@.h.w + seq![axw[2], axw[5]]);
                assert(r@.h.w.len() == 8);
                assert forall|i: int| 0 <= i < r@.h.w.len() implies #[trigger] r@.h.w[i] == o by {
                    if i < 6 {
                        assert(r@.h.w[i] == first@.h.w[i]);
                        assert(first@.h.w[i] == copies@.h.w[i]);
                    }
                }
                assert(r@.s =~= seq![0int, 3int]);
                assert(ren_seq(first@.t, axs, 6, and_xor@.t) =~= seq![6int, 7int]);
                assert(r@.t =~= seq![6int, 7int]);
                assert(cs.h.s[0] == first@.h.s[0]);
                assert(cs.h.s[1] == first@.h.s[1]);
                assert(cs.h.s[2] == ren_seq(first@.t, axs, 6, and_xor@.h.s[0]));
                assert(cs.h.s[3] == ren_seq(first@.t, axs, 6, and_xor@.h.s[1]));
                assert(ren_seq(first@.t, axs, 6, and_xor@.h.s[0]) =~= seq![1int, 4int]);
                assert(ren_seq(first@.t, axs, 6, and_xor@.h.s[1]) =~= seq![2int, 5int]);
                assert(r@.h.s =~~= seq![
                    seq![0int],
                    seq![3int],
                    seq![1int, 4int],
                    seq![2int, 5int],
                ]);
                assert(cs.h.t[0] == first@.h.t[0]);
                assert(cs.h.t[1] == first@.h.t[1]);
                assert(cs.h.t[2] == ren_seq(first@.t, axs, 6, and_xor@.h.t[0]));
                assert(cs.h.t[3] == ren_seq(first@.t, axs, 6, and_xor@.h.t[1]));
                assert(ren_seq(first@.t, axs, 6, and_xor@.h.t[0]) =~= seq![6int]);
                assert(ren_seq(first@.t, axs, 6, and_xor@.h.t[1]) =~= seq![7int]);
                assert(r@.h.t =~~= seq![
                    seq![1int, 2int],
                    seq![4int, 5int],
                    seq![6int],
                    seq![7int],
                ]);
            }
            r
        },
        Err(_) => unreached(),
    }
}

/// The half adder on two-bit buses: the wiring of `half_adder_at`, every
/// wire a two-bit bus.
pub fn half_adder() -> (r: OpenHypergraph)
    ensures
        r@.wf(),
        r@.h.x == seq![Arr::Copy, Arr::Copy, Arr::And, Arr::Xor],
        r@.h.w.len() == 8,
        forall|i: int| 0 <= i < r@.h.w.len() ==> (#[trigger] r@.h.w[i]).width() == 2,
        r@.s == seq![0int, 3int],
        r@.t == seq![6int, 7int],
        r@.h.s == seq![seq![0int], seq![3int], seq![1int, 4int], seq![2int, 5int]],
        r@.h.t == seq![seq![1int, 2int], seq![4int, 5int], seq![6int], seq![7int]],
{
    half_adder_at(Obj::new(2))
}

} // verus!
