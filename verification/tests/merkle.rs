use mirror_pool::field::{from_u64, F};
use mirror_pool::merkle::{IncrementalMerkleTree, MerkleError, DEFAULT_HEIGHT};
use mirror_pool::poseidon::hash2;

fn leaf(n: u64) -> F {
    from_u64(1000 + n)
}

#[test]
fn empty_tree_root_matches_zeros() {
    let t = IncrementalMerkleTree::new(10);
    assert_eq!(t.root(), t.recompute_root());
    assert!(t.is_empty());
}

#[test]
fn incremental_root_matches_full_recompute() {
    let mut t = IncrementalMerkleTree::new(12);
    for n in 0..20 {
        t.insert(leaf(n)).unwrap();
        // The cheap incremental root must equal the full recomputation.
        assert_eq!(t.root(), t.recompute_root(), "mismatch after {n} inserts");
    }
}

#[test]
fn openings_verify_for_every_leaf() {
    let mut t = IncrementalMerkleTree::new(16);
    let count = 25;
    for n in 0..count {
        t.insert(leaf(n)).unwrap();
    }
    let root = t.root();
    for n in 0..count {
        let path = t.opening(n as usize).expect("leaf exists");
        assert!(path.verify(leaf(n), root), "opening {n} failed to verify");
    }
}

#[test]
fn opening_rejects_wrong_leaf() {
    let mut t = IncrementalMerkleTree::new(8);
    for n in 0..5 {
        t.insert(leaf(n)).unwrap();
    }
    let path = t.opening(2).unwrap();
    assert!(path.verify(leaf(2), t.root()));
    assert!(!path.verify(leaf(99), t.root()));
}

#[test]
fn opening_out_of_range_is_none() {
    let mut t = IncrementalMerkleTree::new(8);
    t.insert(leaf(0)).unwrap();
    assert!(t.opening(1).is_none());
}

#[test]
fn works_at_production_height() {
    let mut t = IncrementalMerkleTree::new(DEFAULT_HEIGHT);
    for n in 0..4 {
        t.insert(leaf(n)).unwrap();
    }
    let root = t.root();
    let path = t.opening(3).unwrap();
    assert_eq!(path.siblings.len(), DEFAULT_HEIGHT);
    assert!(path.verify(leaf(3), root));
    assert_eq!(t.root(), t.recompute_root());
}

#[test]
fn tiny_tree_fills_and_rejects_overflow() {
    let mut t = IncrementalMerkleTree::new(2); // capacity 4
    for n in 0..4 {
        t.insert(leaf(n)).unwrap();
    }
    assert_eq!(t.insert(leaf(4)), Err(MerkleError::Full));
}

#[test]
fn height_one_root_is_the_hash_of_two_leaves() {
    let mut t = IncrementalMerkleTree::new(1);
    assert_eq!(t.capacity(), 2);
    assert_eq!(t.insert(leaf(0)), Ok(0));
    assert_eq!(t.insert(leaf(1)), Ok(1));
    assert_eq!(t.root(), hash2(leaf(0), leaf(1)));
    assert_eq!(t.len(), 2);
    assert_eq!(t.height(), 1);
}

#[test]
fn empty_height_two_root_is_the_hash_of_empty_pairs() {
    let t = IncrementalMerkleTree::new(2);
    let zero = from_u64(0);
    let z1 = hash2(zero, zero);
    assert_eq!(t.root(), hash2(z1, z1));
}

#[test]
fn opening_lists_the_siblings_bottom_up() {
    let mut t = IncrementalMerkleTree::new(2);
    for n in 0..3 {
        t.insert(leaf(n)).unwrap();
    }
    let path = t.opening(2).unwrap();
    let zero = from_u64(0);
    assert_eq!(path.index, 2);
    assert_eq!(path.siblings, vec![zero, hash2(leaf(0), leaf(1))]);
    assert_eq!(path.compute_root(leaf(2)), t.root());
}
