use mirror_pool::field::{from_u64, to_bytes_be};
use mirror_pool::merkle::IncrementalMerkleTree;
use mirror_pool::note::Note;
use mirror_pool::program::{
    advance_round, commit, deposit, initialize_pool, open_round, propose, round_id_to_input,
    CreditAccount, MirrorPoolError, Round, RoundOutcome, RoundPhase, HEIGHT, ROOT_HISTORY_SIZE,
};
use mirror_pool::solana_format::VkBytes;

/// Deterministic note for leaf `i` (no RNG needed).
fn note(i: u64) -> Note {
    Note::new(from_u64(1000 + i), from_u64(5_000_000 + i))
}

/// A wallet key for the tests.
fn wallet(i: u8) -> [u8; 32] {
    [i; 32]
}

fn garbage_vk() -> VkBytes {
    VkBytes { alpha: [1u8; 64], beta: [2u8; 128], gamma: [3u8; 128], delta: [4u8; 128], ic: vec![[5u8; 64]; 5] }
}

/// A round in the commit phase whose action was sealed by a proposal.
fn round_in_commit(threshold: u64) -> Round {
    let (mut r, _) = open_round(9, 1, 0, 5, 5, 5, threshold);
    r.action = [7u8; 32];
    r.action_set = true;
    r.proposal_count = 1;
    let slot = r.propose_end_slot;
    assert!(advance_round(&mut r, slot).is_ok());
    assert_eq!(r.phase, RoundPhase::Commit);
    r
}

#[test]
fn empty_root_matches_mp_crypto() {
    let pool = initialize_pool([0u8; 32], 255).unwrap();
    let offchain = IncrementalMerkleTree::new(HEIGHT);
    assert_eq!(pool.next_index, 0);
    assert_eq!(
        pool.root,
        to_bytes_be(&offchain.root()),
        "empty-tree root mismatch (check zeros computation / endianness)"
    );
}

#[test]
fn deposits_match_mp_crypto_root() {
    let mut pool = initialize_pool([0u8; 32], 255).unwrap();
    let mut offchain = IncrementalMerkleTree::new(HEIGHT);
    for i in 0..17u64 {
        let c = note(i).commitment();
        deposit(&mut pool, to_bytes_be(&c)).unwrap();
        offchain.insert(c).unwrap();
        assert_eq!(pool.next_index, i + 1, "next_index after {} deposits", i + 1);
        assert_eq!(pool.root, to_bytes_be(&offchain.root()), "root mismatch after {} deposits", i + 1);
    }
}

#[test]
fn deposit_records_root_in_history() {
    let mut pool = initialize_pool([0u8; 32], 255).unwrap();
    let c = note(0).commitment();
    let ev = deposit(&mut pool, to_bytes_be(&c)).unwrap();
    // The newest history entry is the current root.
    assert_eq!(pool.current_root_index, 1);
    assert_eq!(pool.roots[1], pool.root);
    assert_eq!(ev.index, 0);
    assert_eq!(ev.root, pool.root);
    assert_eq!(ev.commitment, to_bytes_be(&c));
}

#[test]
fn root_history_wraps_around() {
    let mut pool = initialize_pool([0u8; 32], 255).unwrap();
    for i in 0..(ROOT_HISTORY_SIZE as u64 + 1) {
        deposit(&mut pool, to_bytes_be(&note(i).commitment())).unwrap();
    }
    assert_eq!(pool.current_root_index, 1);
    assert_eq!(pool.roots[1], pool.root);
}

#[test]
fn non_canonical_commitment_is_rejected_and_leaves_pool_unchanged() {
    let mut pool = initialize_pool([0u8; 32], 255).unwrap();
    let before = pool.root;
    assert_eq!(deposit(&mut pool, [0xFF; 32]).err(), Some(MirrorPoolError::PoseidonFailed));
    assert_eq!(pool.root, before);
    assert_eq!(pool.next_index, 0);
}

#[test]
fn no_proposal_aborts_at_seal() {
    let (mut r, ev) = open_round(3, 0, 0, 5, 5, 5, 1);
    assert_eq!(ev.round_id, 3);
    let slot = r.propose_end_slot;
    let adv = advance_round(&mut r, slot).unwrap();
    assert_eq!(r.phase, RoundPhase::Closed);
    assert_eq!(r.outcome, RoundOutcome::Abort);
    assert_eq!(adv.phase, RoundPhase::Closed);
}

#[test]
fn commit_in_propose_phase_is_rejected() {
    let (mut r, _) = open_round(5, 0, 0, 5, 5, 5, 1);
    let mut committers = Vec::new();
    let mut credit: Option<CreditAccount> = None;
    assert_eq!(commit(&mut r, &mut committers, &mut credit, wallet(1), 1, 1), Err(MirrorPoolError::WrongPhase));
    assert!(credit.is_none());
    assert!(committers.is_empty());
    assert_eq!(r.commit_count, 0);
}

#[test]
fn advance_before_window_is_rejected() {
    let (mut r, _) = open_round(6, 0, 0, 5, 5, 5, 1);
    assert_eq!(advance_round(&mut r, 0).err(), Some(MirrorPoolError::WindowOpen));
    assert_eq!(r.phase, RoundPhase::Propose);
}

#[test]
fn round_windows_follow_the_slot_counts() {
    let (r, _) = open_round(1, 0, 100, 5, 6, 7, 3);
    assert_eq!(r.propose_end_slot, 105);
    assert_eq!(r.commit_end_slot, 111);
    assert_eq!(r.execute_end_slot, 118);
    assert_eq!(r.phase, RoundPhase::Propose);
    assert_eq!(r.outcome, RoundOutcome::Pending);
    assert!(!r.action_set);
}

#[test]
fn threshold_met_goes_then_closes() {
    let mut r = round_in_commit(3);
    let mut committers = Vec::new();
    for i in 0..3 {
        let mut credit = None;
        let slot = r.commit_end_slot - 1;
        commit(&mut r, &mut committers, &mut credit, wallet(i), 4, slot).unwrap();
        let c = credit.unwrap();
        assert_eq!(c.credits, 1);
        assert_eq!(c.bump, 4);
    }
    assert_eq!(r.commit_count, 3);
    let slot = r.commit_end_slot;
    advance_round(&mut r, slot).unwrap();
    assert_eq!(r.phase, RoundPhase::Execute);
    assert_eq!(r.outcome, RoundOutcome::Go);
    let slot = r.execute_end_slot;
    advance_round(&mut r, slot).unwrap();
    assert_eq!(r.phase, RoundPhase::Closed);
    // The sealed action never changed along the way.
    assert_eq!(r.action, [7u8; 32]);
    assert!(r.action_set);
    assert_eq!(advance_round(&mut r, u64::MAX).err(), Some(MirrorPoolError::RoundClosed));
}

#[test]
fn thin_crowd_aborts_at_threshold() {
    let mut r = round_in_commit(5);
    let mut committers = Vec::new();
    for i in 0..2 {
        commit(&mut r, &mut committers, &mut None, wallet(i), 0, 0).unwrap();
    }
    let slot = r.commit_end_slot;
    advance_round(&mut r, slot).unwrap();
    assert_eq!(r.phase, RoundPhase::Closed);
    assert_eq!(r.outcome, RoundOutcome::Abort);
}

#[test]
fn commit_after_window_is_rejected() {
    let mut r = round_in_commit(1);
    let mut credit = Some(CreditAccount { credits: 5, bump: 2 });
    let slot = r.commit_end_slot;
    assert_eq!(commit(&mut r, &mut Vec::new(), &mut credit, wallet(1), 0, slot), Err(MirrorPoolError::WindowClosed));
    assert_eq!(credit.unwrap().credits, 5);
}

#[test]
fn propose_to_a_non_propose_round_is_rejected() {
    let pool = initialize_pool([0u8; 32], 255).unwrap();
    let (mut r, _) = open_round(302, 0, 0, 5, 5, 5, 1);
    advance_round(&mut r, 5).unwrap();
    assert_eq!(r.phase, RoundPhase::Closed);
    let res = propose(&pool, &mut r, &mut Vec::new(), 6, 302, [1u8; 32], to_bytes_be(&from_u64(999)), pool.root, [0u8; 64], [0u8; 128], [0u8; 64], &garbage_vk());
    assert_eq!(res, Err(MirrorPoolError::WrongPhase));
}

#[test]
fn unknown_root_is_rejected() {
    let mut pool = initialize_pool([0u8; 32], 255).unwrap();
    deposit(&mut pool, to_bytes_be(&note(0).commitment())).unwrap();
    let (mut r, _) = open_round(103, 0, 0, 5, 5, 5, 1);
    let res = propose(&pool, &mut r, &mut Vec::new(), 1, 103, [1u8; 32], to_bytes_be(&from_u64(777)), [7u8; 32], [0u8; 64], [0u8; 128], [0u8; 64], &garbage_vk());
    assert_eq!(res, Err(MirrorPoolError::UnknownRoot));
    // The all-zero (unused history slot) root is never accepted either.
    let res = propose(&pool, &mut r, &mut Vec::new(), 1, 103, [1u8; 32], [0u8; 32], [0u8; 32], [0u8; 64], [0u8; 128], [0u8; 64], &garbage_vk());
    assert_eq!(res, Err(MirrorPoolError::UnknownRoot));
    assert!(!r.action_set);
}

#[test]
fn tampered_proof_is_rejected() {
    let mut pool = initialize_pool([0u8; 32], 255).unwrap();
    deposit(&mut pool, to_bytes_be(&note(0).commitment())).unwrap();
    let (mut r, _) = open_round(101, 0, 0, 5, 5, 5, 1);
    let res = propose(&pool, &mut r, &mut Vec::new(), 1, 101, [1u8; 32], [0u8; 32], pool.root, [9u8; 64], [9u8; 128], [9u8; 64], &garbage_vk());
    assert_eq!(res, Err(MirrorPoolError::ProofInvalid));
    assert_eq!(r.proposal_count, 0);
}

#[test]
fn round_id_input_is_big_endian() {
    let x = round_id_to_input(0x0102);
    let mut expected = [0u8; 32];
    expected[30] = 1;
    expected[31] = 2;
    assert_eq!(x, expected);
}

#[test]
fn double_propose_same_nullifier_is_rejected() {
    // The nullifier was spent by an earlier accepted proposal in this round
    // (its marker is recorded); proposing with it again fails before any
    // other check and changes nothing.
    let mut pool = initialize_pool([0u8; 32], 255).unwrap();
    deposit(&mut pool, to_bytes_be(&note(0).commitment())).unwrap();
    let (mut r, _) = open_round(4, 0, 0, 5, 5, 5, 1);
    r.action = to_bytes_be(&from_u64(999));
    r.action_set = true;
    r.proposal_count = 1;
    let nullifier = to_bytes_be(&note(0).nullifier(from_u64(4)));
    let mut spent = vec![nullifier];
    let before = r;
    let res = propose(&pool, &mut r, &mut spent, 1, 4, nullifier, to_bytes_be(&from_u64(999)), pool.root, [0u8; 64], [0u8; 128], [0u8; 64], &garbage_vk());
    assert_eq!(res, Err(MirrorPoolError::NullifierSpent));
    assert_eq!(r.proposal_count, before.proposal_count);
    assert_eq!(r.action, before.action);
    assert_eq!(spent, vec![nullifier]);
}

#[test]
fn refused_proposal_spends_nothing() {
    let mut pool = initialize_pool([0u8; 32], 255).unwrap();
    deposit(&mut pool, to_bytes_be(&note(0).commitment())).unwrap();
    let (mut r, _) = open_round(8, 0, 0, 5, 5, 5, 1);
    let mut spent = Vec::new();
    let res = propose(&pool, &mut r, &mut spent, 1, 8, [1u8; 32], [0u8; 32], pool.root, [9u8; 64], [9u8; 128], [9u8; 64], &garbage_vk());
    assert_eq!(res, Err(MirrorPoolError::ProofInvalid));
    assert!(spent.is_empty());
}

#[test]
fn committing_grants_a_cover_credit() {
    let mut r = round_in_commit(1);
    let mut committers = Vec::new();
    let (a, b, stranger) = (wallet(1), wallet(2), wallet(3));
    let mut credit_a = None;
    let mut credit_b = None;
    commit(&mut r, &mut committers, &mut credit_a, a, 7, 1).unwrap();
    commit(&mut r, &mut committers, &mut credit_b, b, 8, 1).unwrap();
    assert_eq!(credit_a.unwrap().credits, 1);
    assert_eq!(credit_b.unwrap().credits, 1);
    assert_eq!(r.commit_count, 2);
    // A wallet that never committed has no credit account.
    assert!(!committers.contains(&stranger));
    // A wallet's credits accumulate across rounds.
    let mut r2 = round_in_commit(1);
    commit(&mut r2, &mut Vec::new(), &mut credit_a, a, 7, 1).unwrap();
    assert_eq!(credit_a.unwrap().credits, 2);
}

#[test]
fn a_wallet_cannot_commit_twice_in_a_round() {
    let mut r = round_in_commit(1);
    let mut committers = Vec::new();
    let a = wallet(1);
    let mut credit_a = None;
    commit(&mut r, &mut committers, &mut credit_a, a, 7, 1).unwrap();
    // Second commit by the same wallet: its marker already exists.
    assert_eq!(commit(&mut r, &mut committers, &mut credit_a, a, 7, 1), Err(MirrorPoolError::AlreadyCommitted));
    // The count reflects a single distinct committer.
    assert_eq!(r.commit_count, 1);
    assert_eq!(credit_a.unwrap().credits, 1);
    assert_eq!(committers, vec![a]);
}

#[test]
fn initialized_pool_fills_subtrees_with_zero_roots() {
    let pool = initialize_pool([0u8; 32], 255).unwrap();
    assert_eq!(pool.filled_subtrees, pool.zeros);
    assert_eq!(pool.zeros[0], [0u8; 32]);
    let z1 = mirror_pool::poseidon::hash2(from_u64(0), from_u64(0));
    assert_eq!(pool.zeros[1], to_bytes_be(&z1));
    assert_eq!(pool.roots[0], pool.root);
}
