use polycirc::circuit::{Obj, Arr, CircuitError};
use polycirc::diagram::OpenHypergraph;
use polycirc::examples::{and, copy_and, half_adder, half_adder_at};
use polycirc::perm::Permutation;
use polycirc::relabel::permute_open_hypergraph;

#[test]
fn profile_table() {
    assert_eq!(Arr::Copy.profile(), (1, 2));
    assert_eq!(Arr::Discard.profile(), (1, 0));
    assert_eq!(Arr::Xor.profile(), (2, 1));
    assert_eq!(Arr::And.profile(), (2, 1));
    assert_eq!(Arr::T.profile(), (0, 1));
    assert_eq!(Arr::F.profile(), (0, 1));
}

#[test]
fn wire_types_equal_iff_widths() {
    assert_eq!(Obj::new(3), Obj::new(3));
    assert_ne!(Obj::new(3), Obj::new(4));
}

#[test]
fn and_wiring() {
    let d = and();
    assert_eq!(d.h.x, vec![Arr::And]);
    assert_eq!(d.h.w, vec![Obj::new(1); 3]);
    assert_eq!(d.s, vec![0, 1]);
    assert_eq!(d.t, vec![2]);
    assert_eq!(d.h.s, vec![vec![0, 1]]);
    assert_eq!(d.h.t, vec![vec![2]]);
}

#[test]
fn half_adder_wiring() {
    let d = half_adder();
    assert_eq!(d.h.x, vec![Arr::Copy, Arr::Copy, Arr::And, Arr::Xor]);
    assert_eq!(d.h.w, vec![Obj::new(2); 8]);
    // Inputs 0 and 3 are copied; And takes the first copies, Xor the second;
    // the output boundary is And's output then Xor's.
    assert_eq!(d.s, vec![0, 3]);
    assert_eq!(d.t, vec![6, 7]);
    assert_eq!(d.h.s, vec![vec![0], vec![3], vec![1, 4], vec![2, 5]]);
    assert_eq!(d.h.t, vec![vec![1, 2], vec![4, 5], vec![6], vec![7]]);
}

#[test]
fn singleton_shapes() {
    let o = Obj::new(3);
    for arr in [Arr::Copy, Arr::Discard, Arr::Xor, Arr::And, Arr::T, Arr::F] {
        let (m, n) = arr.profile();
        let d = arr.term(o);
        assert_eq!(d.s.len(), m);
        assert_eq!(d.t.len(), n);
        assert_eq!(d.h.w.len(), m + n);
        assert!(d.h.w.iter().all(|&w| w == o));
        assert_eq!(d.h.x, vec![arr]);
        let ins: Vec<usize> = (0..m).collect();
        let outs: Vec<usize> = (m..m + n).collect();
        assert_eq!(d.s, ins);
        assert_eq!(d.t, outs);
        assert_eq!(d.h.s, vec![ins.clone()]);
        assert_eq!(d.h.t, vec![outs.clone()]);
    }
}

#[test]
fn identity_diagram() {
    let objs = vec![Obj::new(1), Obj::new(2)];
    let d = OpenHypergraph::identity(objs.clone());
    assert_eq!(d.h.w, objs);
    assert!(d.h.x.is_empty());
    assert_eq!(d.s, vec![0, 1]);
    assert_eq!(d.t, vec![0, 1]);
}

#[test]
fn twist_diagram() {
    let a = Obj::new(1);
    let b = Obj::new(2);
    let d = OpenHypergraph::twist(vec![a], vec![b]);
    assert_eq!(d.h.w, vec![a, b]);
    assert!(d.h.x.is_empty());
    assert_eq!(d.s, vec![0, 1]);
    assert_eq!(d.t, vec![1, 0]);
}

#[test]
fn tensor_places_side_by_side() {
    let d = and().tensor(&and());
    assert_eq!(d.h.x, vec![Arr::And, Arr::And]);
    assert_eq!(d.h.w.len(), 6);
    assert_eq!(d.s, vec![0, 1, 3, 4]);
    assert_eq!(d.t, vec![2, 5]);
    assert_eq!(d.h.s, vec![vec![0, 1], vec![3, 4]]);
    assert_eq!(d.h.t, vec![vec![2], vec![5]]);
}

#[test]
fn compose_glues_boundaries() {
    let d = copy_and();
    assert_eq!(d.h.w.len(), 4);
    assert_eq!(d.h.x, vec![Arr::Copy, Arr::And]);
    assert_eq!(d.h.s, vec![vec![0], vec![1, 2]]);
    assert_eq!(d.h.t, vec![vec![1, 2], vec![3]]);
    assert_eq!(d.s, vec![0]);
    assert_eq!(d.t, vec![3]);
}

#[test]
fn compose_rejects_length_mismatch() {
    let f = and();
    let g = and();
    assert_eq!(f.compose(&g).err(), Some(CircuitError::TypeMismatch));
}

#[test]
fn compose_rejects_width_mismatch() {
    let f = Arr::Copy.term(Obj::new(1));
    let g = Arr::And.term(Obj::new(2));
    assert_eq!(f.compose(&g).err(), Some(CircuitError::TypeMismatch));
}

#[test]
fn copy_and_scenario() {
    let d = copy_and();
    assert_eq!(d.s.len(), 1);
    assert_eq!(d.t.len(), 1);
    assert_eq!(d.h.w[d.s[0]], Obj::new(2));
    assert_eq!(d.h.w[d.t[0]], Obj::new(2));
    assert_eq!(d.h.x, vec![Arr::Copy, Arr::And]);
}

#[test]
fn half_adder_scenario() {
    let d = half_adder();
    assert_eq!(d.s.len(), 2);
    assert_eq!(d.t.len(), 2);
    assert_eq!(d.h.x.len(), 4);
    // The same counts hold whatever bus width is chosen.
    for width in [1, 3, 64] {
        let d = half_adder_at(Obj::new(width));
        assert_eq!(d.s.len(), 2);
        assert_eq!(d.t.len(), 2);
        assert_eq!(d.h.x.len(), 4);
    }
}

#[test]
fn sequential_composition_associative() {
    let o = Obj::new(2);
    let f = Arr::Copy.term(o);
    let g = Arr::And.term(o);
    let h = Arr::Copy.term(o);
    let left = f.compose(&g).unwrap().compose(&h).unwrap();
    let right = f.compose(&g.compose(&h).unwrap()).unwrap();
    assert!(left.struct_eq(&right));
}

#[test]
fn parallel_composition_associative() {
    let f = and();
    let g = copy_and();
    let h = half_adder();
    let left = f.tensor(&g).tensor(&h);
    let right = f.tensor(&g.tensor(&h));
    assert!(left.struct_eq(&right));
}

#[test]
fn interchange_up_to_relabeling() {
    let o = Obj::new(2);
    let f = Arr::Copy.term(o);
    let g = Arr::And.term(o);
    let h = Arr::Copy.term(o);
    let k = Arr::Xor.term(o);
    let left = f.compose(&g).unwrap().tensor(&h.compose(&k).unwrap());
    let right = f.tensor(&h).compose(&g.tensor(&k)).unwrap();
    // The two sides differ only by the block permutations that move the
    // first composite's fresh wire (and the second pair's hyperedges) past
    // each other.
    let pw = Permutation::from_vec(vec![0, 1, 2, 6, 3, 4, 5, 7]).unwrap();
    let px = Permutation::from_vec(vec![0, 2, 1, 3]).unwrap();
    let relabeled = permute_open_hypergraph(&left, &pw, &px).unwrap();
    assert!(relabeled.struct_eq(&right));
    // The observable shape agrees exactly even before relabeling.
    assert_eq!(left.h.w.len(), right.h.w.len());
    assert_eq!(left.h.x.len(), right.h.x.len());
    assert_eq!(left.s.len(), right.s.len());
    assert_eq!(left.t.len(), right.t.len());
    let widths =
        |d: &OpenHypergraph, b: &Vec<usize>| b.iter().map(|&i| d.h.w[i]).collect::<Vec<Obj>>();
    assert_eq!(widths(&left, &left.s), widths(&right, &right.s));
    assert_eq!(widths(&left, &left.t), widths(&right, &right.t));
    let mut lx = left.h.x.clone();
    let mut rx = right.h.x.clone();
    lx.sort_by_key(|a| format!("{a:?}"));
    rx.sort_by_key(|a| format!("{a:?}"));
    assert_eq!(lx, rx);
}
