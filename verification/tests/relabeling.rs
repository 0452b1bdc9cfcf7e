use polycirc::circuit::{Obj, Arr, CircuitError};
use polycirc::diagram::OpenHypergraph;
use polycirc::examples::{copy_and, half_adder};
use polycirc::perm::Permutation;
use polycirc::relabel::{permute_hypergraph, permute_open_hypergraph, random_isomorphic};

#[test]
fn identity_relabel_is_exact() {
    let d = copy_and();
    let pw = Permutation::identity(d.h.w.len());
    let px = Permutation::identity(d.h.x.len());
    let r = permute_open_hypergraph(&d, &pw, &px).unwrap();
    assert!(r.struct_eq(&d));
    let rh = permute_hypergraph(&d.h, &pw, &px).unwrap();
    assert!(rh.struct_eq(&d.h));
}

#[test]
fn relabel_rejects_wrong_lengths() {
    let d = copy_and();
    let pw = Permutation::identity(d.h.w.len() + 1);
    let px = Permutation::identity(d.h.x.len());
    assert_eq!(
        permute_hypergraph(&d.h, &pw, &px).err(),
        Some(CircuitError::ShapeMismatch)
    );
    let pw = Permutation::identity(d.h.w.len());
    let px = Permutation::identity(d.h.x.len() + 2);
    assert_eq!(
        permute_open_hypergraph(&d, &pw, &px).err(),
        Some(CircuitError::ShapeMismatch)
    );
}

#[test]
fn edge_permutation_moves_slot_ownership() {
    // copy_and has x == [Copy, And], s == [[0], [1, 2]], t == [[1, 2], [3]].
    // Swapping the two hyperedges must swap the wire-list grouping with them.
    let d = copy_and();
    let pw = Permutation::identity(4);
    let px = Permutation::from_vec(vec![1, 0]).unwrap();
    let r = permute_open_hypergraph(&d, &pw, &px).unwrap();
    assert_eq!(r.h.x, vec![Arr::And, Arr::Copy]);
    assert_eq!(r.h.s, vec![vec![1, 2], vec![0]]);
    assert_eq!(r.h.t, vec![vec![3], vec![1, 2]]);
    assert_eq!(r.s, vec![0]);
    assert_eq!(r.t, vec![3]);
    assert_eq!(r.h.w, d.h.w);
}

#[test]
fn wire_permutation_rewrites_references() {
    let d = copy_and();
    let pw = Permutation::from_vec(vec![1, 2, 3, 0]).unwrap();
    let px = Permutation::identity(2);
    let r = permute_open_hypergraph(&d, &pw, &px).unwrap();
    assert_eq!(r.h.x, vec![Arr::Copy, Arr::And]);
    assert_eq!(r.h.s, vec![vec![1], vec![2, 3]]);
    assert_eq!(r.h.t, vec![vec![2, 3], vec![0]]);
    assert_eq!(r.s, vec![1]);
    assert_eq!(r.t, vec![0]);
}

#[test]
fn inverse_relabel_recovers_original() {
    let d = half_adder();
    let pw = Permutation::generate(d.h.w.len(), 5);
    let px = Permutation::generate(d.h.x.len(), 9);
    let a = permute_open_hypergraph(&d, &pw, &px).unwrap();
    let b = permute_open_hypergraph(&a, &pw.invert(), &px.invert()).unwrap();
    assert!(b.struct_eq(&d));
}

#[test]
fn relabel_preserves_triples() {
    let d = half_adder();
    let r = random_isomorphic(&d, 2);
    assert_eq!(r.h.w.len(), d.h.w.len());
    assert_eq!(r.h.x.len(), d.h.x.len());
    let triples = |d: &OpenHypergraph| -> Vec<(Arr, Vec<Obj>, Vec<Obj>)> {
        (0..d.h.x.len())
            .map(|j| {
                (
                    d.h.x[j],
                    d.h.s[j].iter().map(|&i| d.h.w[i]).collect(),
                    d.h.t[j].iter().map(|&i| d.h.w[i]).collect(),
                )
            })
            .collect()
    };
    let a = triples(&d);
    let b = triples(&r);
    // The two lists must be equal as multisets.
    let mut used = vec![false; b.len()];
    for t in &a {
        let pos = b
            .iter()
            .enumerate()
            .position(|(i, u)| !used[i] && u == t)
            .expect("triple lost by relabeling");
        used[pos] = true;
    }
    assert!(used.iter().all(|&u| u));
}

#[test]
fn random_isomorphic_is_reproducible() {
    let d = half_adder();
    let a = random_isomorphic(&d, 3);
    let b = random_isomorphic(&d, 3);
    assert!(a.struct_eq(&b));
    assert_eq!(a.s.len(), d.s.len());
    assert_eq!(a.t.len(), d.t.len());
}
