use mirror_pool::circuit::ProposeCircuit;
use mirror_pool::field::{from_u64, to_bytes_be};
use mirror_pool::merkle::IncrementalMerkleTree;
use mirror_pool::note::Note;
use mirror_pool::policy::{Action, ActionKind};
use mirror_pool::proposal::{build_proposal, ProposalError};
use mirror_pool::solana_format::ProofBytes;

fn fake_prover(c: ProposeCircuit) -> ProofBytes {
    // Stands in for Groth16: records the circuit's height in the proof bytes.
    ProofBytes { a: [c.height as u8; 64], b: [7u8; 128], c: [9u8; 64] }
}

#[test]
fn fails_for_a_leaf_not_in_the_tree() {
    let height = 8;
    let note = Note::new(from_u64(1), from_u64(2));
    let tree = IncrementalMerkleTree::new(height); // empty
    let action = Action { kind: ActionKind::Stake, amount: 1 };
    assert!(build_proposal(&note, &tree, 0, 1, &action, fake_prover).is_err());
}

#[test]
fn leaf_not_in_tree_error_names_the_index() {
    let mut tree = IncrementalMerkleTree::new(4);
    tree.insert(from_u64(5)).unwrap();
    let note = Note::new(from_u64(1), from_u64(2));
    let action = Action { kind: ActionKind::Stake, amount: 1 };
    assert_eq!(
        build_proposal(&note, &tree, 3, 1, &action, fake_prover).err(),
        Some(ProposalError::LeafNotInTree(3))
    );
}

#[test]
fn proposal_carries_the_public_inputs_and_the_proof() {
    let height = 10;
    let note = Note::new(from_u64(5), from_u64(6));
    let mut tree = IncrementalMerkleTree::new(height);
    tree.insert(from_u64(111)).unwrap();
    let idx = tree.insert(note.commitment()).unwrap();
    let action = Action { kind: ActionKind::Unstake, amount: 10_000_000_000 };
    let args = build_proposal(&note, &tree, idx, 42, &action, fake_prover).unwrap();

    assert_eq!(Action::from_field_bytes(&args.action), Some(action));
    assert_eq!(args.round_id, 42);
    assert_eq!(args.root, to_bytes_be(&tree.root()));
    assert_eq!(args.nullifier, to_bytes_be(&note.nullifier(from_u64(42))));
    assert_eq!(args.proof_a, [10u8; 64]);
    assert_eq!(args.proof_b, [7u8; 128]);
    assert_eq!(args.proof_c, [9u8; 64]);
}

#[test]
fn honest_witness_circuit_opens_to_the_root() {
    let note = Note::new(from_u64(11), from_u64(22));
    let mut tree = IncrementalMerkleTree::new(6);
    for i in 0..3 {
        tree.insert(from_u64(100 + i)).unwrap();
    }
    let idx = tree.insert(note.commitment()).unwrap();
    let path = tree.opening(idx).unwrap();
    let c = ProposeCircuit::from_witness(&note, &path, tree.root(), from_u64(7), from_u64(999));
    assert_eq!(c.height, 6);
    assert_eq!(c.path_indices, vec![true, true, false, false, false, false]);
    assert_eq!(c.public_inputs(), vec![tree.root(), note.nullifier(from_u64(7)), from_u64(7), from_u64(999)]);
    assert_eq!(path.compute_root(note.commitment()), c.root);
}

#[test]
fn dummy_circuit_is_all_zero() {
    let c = ProposeCircuit::dummy(3);
    assert_eq!(c.height, 3);
    assert_eq!(c.path_elements, vec![from_u64(0); 3]);
    assert_eq!(c.path_indices, vec![false; 3]);
    assert_eq!(c.k, from_u64(0));
}
