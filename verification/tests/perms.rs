use polycirc::perm::Permutation;

#[test]
fn generate_is_deterministic() {
    let a = Permutation::generate(10, 42);
    let b = Permutation::generate(10, 42);
    assert_eq!(a.to_vec(), b.to_vec());
}

#[test]
fn generate_trivial_sizes() {
    assert_eq!(Permutation::generate(0, 7).to_vec(), Vec::<usize>::new());
    assert_eq!(Permutation::generate(1, 7).to_vec(), vec![0]);
}

#[test]
fn generate_yields_permutation() {
    let p = Permutation::generate(12, 3).to_vec();
    let mut seen = vec![false; 12];
    for &v in &p {
        assert!(v < 12);
        assert!(!seen[v]);
        seen[v] = true;
    }
    assert!(seen.iter().all(|&b| b));
}

#[test]
fn generate_actually_shuffles() {
    // A seeded shuffle of twelve points; for this seed it is not the
    // identity, so a generator that left its input untouched would fail here.
    let p = Permutation::generate(12, 3).to_vec();
    let id: Vec<usize> = (0..12).collect();
    assert_ne!(p, id);
}

#[test]
fn identity_permutation() {
    assert_eq!(Permutation::identity(5).to_vec(), vec![0, 1, 2, 3, 4]);
}

#[test]
fn from_vec_accepts_permutations() {
    let p = Permutation::from_vec(vec![1, 2, 0]).unwrap();
    assert_eq!(p.to_vec(), vec![1, 2, 0]);
    assert_eq!(p.len(), 3);
    assert_eq!(p.at(0), 1);
}

#[test]
fn from_vec_rejects_out_of_range() {
    assert!(Permutation::from_vec(vec![2, 3]).is_none());
}

#[test]
fn from_vec_rejects_duplicates() {
    assert!(Permutation::from_vec(vec![0, 0, 1]).is_none());
}

#[test]
fn invert_roundtrip() {
    let p = Permutation::generate(9, 11);
    let q = p.invert();
    for i in 0..9 {
        assert_eq!(q.at(p.at(i)), i);
        assert_eq!(p.at(q.at(i)), i);
    }
}
