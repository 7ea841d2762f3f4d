//! The on-chain pool: membership tree and deposit, the round state machine,
//! and verified anonymous proposals.
//!
//! Field elements are 32-byte big-endian strings here and are hashed with
//! the Solana Poseidon syscall (`Bn254X5`, big-endian). Each instruction is a
//! function from the accounts it touches (and the current slot) to their new
//! contents; an instruction that fails leaves every account as it was.
use crate::bytes::{lemma_be32_unique, lemma_be_value_leading_zeros, lemma_be_value_zero, be32, u64_to_be_bytes};
use crate::field::{be_value, modulus, zero_bytes};
use crate::circuit::ProposeCircuit;
use crate::field::F;
use crate::merkle::IncrementalMerkleTree;
use crate::poseidon::poseidon_hasher;
use crate::merkle_math::{
    empty_root, lemma_node_empty, lemma_node_push, lemma_shr_below, lemma_shr_succ, lemma_shr_zero,
    merkle_root, node, shr,
};
use crate::solana_format::{g1_views, groth16_accepts, groth16_verify, input_views, VkBytes};
use solana_poseidon::{hashv, Endianness, Parameters};
use vstd::arithmetic::power2::pow2;
use vstd::prelude::*;

verus! {

/// Height of the membership tree; capacity is `2^HEIGHT` members.
pub const HEIGHT: usize = 20;

/// Number of recent roots retained so proposals may reference a slightly
/// stale root.
pub const ROOT_HISTORY_SIZE: usize = 32;

/// Length of the sealed action payload.
pub const ACTION_LEN: usize = 32;

/// Two-input on-chain Poseidon on big-endian encodings: the circom Poseidon
/// of the same field elements, read and written big-endian.
pub open spec fn onchain_hash2(a: Seq<u8>, b: Seq<u8>) -> Seq<u8> {
    crate::poseidon::poseidon2(a.reverse(), b.reverse()).reverse()
}

/// Two-input on-chain Poseidon as a hash function value.
pub open spec fn onchain_hasher() -> spec_fn(Seq<u8>, Seq<u8>) -> Seq<u8> {
    |a: Seq<u8>, b: Seq<u8>| onchain_hash2(a, b)
}

/// 32 bytes that encode a field element big-endian.
pub open spec fn is_field_be(s: Seq<u8>) -> bool {
    s.len() == 32 && be_value(s) < modulus()
}

/// Calls `solana_poseidon::hashv(Parameters::Bn254X5, Endianness::BigEndian,
/// &[a, b])`. Off-chain its source runs light-poseidon's
/// `Poseidon::new_circom(2)` and `hash_bytes_be`, which reads each input as a
/// big-endian field element (failing exactly when it is not below the
/// modulus), computes the same circom Poseidon as `hash_bytes_le`, and
/// writes the result big-endian. The contract claims that: the call succeeds
/// exactly on canonical inputs, and the result is the big-endian form of
/// `poseidon` of the little-endian forms (`onchain_hash2`).
#[verifier::external_body]
#[allow(deprecated)]
fn syscall_poseidon2(a: &[u8; 32], b: &[u8; 32]) -> (r: Option<[u8; 32]>)
    ensures
        r is Some <==> (be_value(a@) < modulus() && be_value(b@) < modulus()),
        r matches Some(h) ==> h@ == onchain_hash2(a@, b@) && is_field_be(h@),
{
    match hashv(Parameters::Bn254X5, Endianness::BigEndian, &[a.as_slice(), b.as_slice()]) {
        Ok(h) => Some(h.to_bytes()),
        Err(_) => None,
    }
}

/// Errors of the pool's instructions.
#[derive(Clone, Copy, Debug, PartialEq, Eq, Structural)]
pub enum MirrorPoolError {
    /// The membership tree is full.
    TreeFull,
    /// The Poseidon syscall failed.
    PoseidonFailed,
    /// The instruction is not valid in the round's current phase.
    WrongPhase,
    /// The phase window has already closed.
    WindowClosed,
    /// The phase window has not elapsed yet.
    WindowOpen,
    /// The proposed action does not match the round's sealed action.
    ActionMismatch,
    /// The round is already closed.
    RoundClosed,
    /// The proof references an unknown membership root.
    UnknownRoot,
    /// Groth16 proof verification failed.
    ProofInvalid,
    /// The nullifier was already spent in this round (its marker account
    /// exists).
    NullifierSpent,
    /// The wallet already committed in this round (its marker account
    /// exists).
    AlreadyCommitted,
}

/// Two-input Poseidon over BN254 via the Solana syscall.
fn poseidon2(a: &[u8; 32], b: &[u8; 32]) -> (r: Result<[u8; 32], MirrorPoolError>)
    ensures
        r is Ok <==> (be_value(a@) < modulus() && be_value(b@) < modulus()),
        r matches Ok(h) ==> h@ == onchain_hash2(a@, b@) && is_field_be(h@),
        r matches Err(e) ==> e == MirrorPoolError::PoseidonFailed,
{
    match syscall_poseidon2(a, b) {
        Some(h) => Ok(h),
        None => Err(MirrorPoolError::PoseidonFailed),
    }
}

/// The singleton pool: configuration plus the incremental membership tree.
pub struct Pool {
    /// Admin that created the pool.
    pub authority: [u8; 32],
    /// PDA bump.
    pub bump: u8,
    /// Number of leaves inserted so far.
    pub next_index: u64,
    /// Current Merkle root.
    pub root: [u8; 32],
    /// Left-hand nodes needed to fold in the next leaf.
    pub filled_subtrees: [[u8; 32]; HEIGHT],
    /// Zero-subtree hashes (`zeros[h]` = empty subtree of height `h`).
    pub zeros: [[u8; 32]; HEIGHT],
    /// Ring buffer of recent roots.
    pub roots: [[u8; 32]; ROOT_HISTORY_SIZE],
    /// Index of the newest entry in `roots`.
    pub current_root_index: u32,
    /// The commitments deposited so far, oldest first.
    pub members: Ghost<Seq<Seq<u8>>>,
}

impl Pool {
    /// The pool's invariant: the stored tree state is the incremental state
    /// of the members' tree, and the newest history entry is its root.
    pub open spec fn wf(&self) -> bool {
        let hash = onchain_hasher();
        let n = self.next_index as nat;
        let m = self.members@;
        &&& m.len() == n
        &&& n <= pow2(HEIGHT as nat)
        &&& forall|h: int| #![trigger self.zeros@[h]]
            0 <= h < HEIGHT ==> self.zeros@[h]@ == empty_root(hash, h as nat) && is_field_be(
                self.zeros@[h]@,
            )
        &&& forall|h: int| #![trigger self.filled_subtrees@[h]]
            0 <= h < HEIGHT ==> is_field_be(self.filled_subtrees@[h]@)
        &&& forall|k: int| #![trigger self.filled_subtrees@[k]]
            0 <= k < HEIGHT && shr(n, k as nat) % 2 == 1 ==> self.filled_subtrees@[k]@ == node(
                hash,
                m,
                k as nat,
                (shr(n, k as nat) - 1) as nat,
            )
        &&& self.root@ == merkle_root(hash, m, HEIGHT as nat)
        &&& self.current_root_index < ROOT_HISTORY_SIZE
        &&& self.roots@[self.current_root_index as int] == self.root
    }

    /// Whether `root` is in the root history.
    pub open spec fn knows_root(&self, root: [u8; 32]) -> bool {
        self.roots@.contains(root)
    }
}

/// The event a deposit emits.
pub struct DepositEvent {
    pub index: u64,
    pub commitment: [u8; 32],
    pub root: [u8; 32],
}

/// `1 << HEIGHT`.
proof fn lemma_capacity()
    ensures
        pow2(HEIGHT as nat) == 1048576,
        (1u128 << 20u128) == 1048576,
{
    vstd::arithmetic::power2::lemma2_to64();
    assert((1u128 << 20u128) == 1048576) by (bit_vector);
}

/// Create the singleton pool and initialize its empty membership tree.
#[verifier::spinoff_prover]
pub fn initialize_pool(authority: [u8; 32], bump: u8) -> (r: Result<Pool, MirrorPoolError>)
    ensures
        r matches Ok(pool) && {
            &&& pool.wf()
            &&& pool.authority == authority
            &&& pool.bump == bump
            &&& pool.next_index == 0
            &&& pool.members@ == Seq::<Seq<u8>>::empty()
            &&& pool.current_root_index == 0
            &&& forall|i: int| 1 <= i < ROOT_HISTORY_SIZE ==> #[trigger] pool.roots@[i]@ == zero_bytes()
            &&& forall|h: int| 0 <= h < HEIGHT ==> #[trigger] pool.filled_subtrees@[h]@ == empty_root(
                onchain_hasher(),
                h as nat,
            )
        },
{
    let ghost hash = onchain_hasher();
    let mut zeros = [[0u8; 32]; HEIGHT];
    let mut filled_subtrees = [[0u8; 32]; HEIGHT];
    // The empty leaf is the field zero (all-zero big-endian bytes).
    let mut cur: [u8; 32] = [0u8; 32];
    proof {
        assert(cur@ =~= zero_bytes());
        lemma_be_value_zero(cur@);
    }
    let mut h: usize = 0;
    while h < HEIGHT
        invariant
            hash == onchain_hasher(),
            h <= HEIGHT,
            zeros@.len() == HEIGHT,
            filled_subtrees@.len() == HEIGHT,
            cur@ == empty_root(hash, h as nat),
            is_field_be(cur@),
            forall|j: int| #![trigger zeros@[j]]
                0 <= j < h ==> zeros@[j]@ == empty_root(hash, j as nat) && is_field_be(zeros@[j]@),
            forall|j: int| #![trigger filled_subtrees@[j]]
                0 <= j < h ==> is_field_be(filled_subtrees@[j]@) && filled_subtrees@[j]@
                    == empty_root(hash, j as nat),
        decreases HEIGHT - h,
    {
        zeros[h] = cur;
        filled_subtrees[h] = cur;
        let next = match poseidon2(&cur, &cur) {
            Ok(x) => x,
            Err(e) => {
                return Err(e);
            },
        };
        proof {
            assert(next@ == hash(cur@, cur@));
        }
        cur = next;
        h = h + 1;
    }
    let mut roots = [[0u8; 32]; ROOT_HISTORY_SIZE];
    roots[0] = cur;
    let pool = Pool {
        authority,
        bump,
        next_index: 0,
        root: cur,
        filled_subtrees,
        zeros,
        roots,
        current_root_index: 0,
        members: Ghost(Seq::empty()),
    };
    proof {
        lemma_capacity();
        lemma_node_empty(hash, pool.members@, HEIGHT as nat, 0);
        assert forall|k: int| 0 <= k < HEIGHT implies #[trigger] shr(0, k as nat) == 0 by {
            lemma_shr_zero(k as nat);
        }
        assert forall|i: int| 1 <= i < ROOT_HISTORY_SIZE implies #[trigger] pool.roots@[i]@
            == zero_bytes() by {
            assert(pool.roots@[i]@ =~= zero_bytes());
        }
    }
    Ok(pool)
}

/// Insert a membership commitment `C = H(k, r)` as a new leaf.
///
/// Uses the Tornado incremental update so the root is recomputed in
/// `HEIGHT` hashes, and records the new root in the history ring. Deposit is
/// open: anyone may add a commitment.
#[verifier::spinoff_prover]
pub fn deposit(pool: &mut Pool, commitment: [u8; 32]) -> (r: Result<DepositEvent, MirrorPoolError>)
    requires
        old(pool).wf(),
    ensures
        final(pool).wf(),
        r matches Err(e) ==> *final(pool) == *old(pool),
        (r == Err::<DepositEvent, MirrorPoolError>(MirrorPoolError::TreeFull)) <==> old(
            pool,
        ).next_index >= pow2(HEIGHT as nat),
        (r == Err::<DepositEvent, MirrorPoolError>(MirrorPoolError::PoseidonFailed)) <==> (old(
            pool,
        ).next_index < pow2(HEIGHT as nat) && be_value(commitment@) >= modulus()),
        r is Ok <==> {
            &&& old(pool).next_index < pow2(HEIGHT as nat)
            &&& be_value(commitment@) < modulus()
        },
        r matches Ok(ev) ==> {
            &&& final(pool).members@ == old(pool).members@.push(commitment@)
            &&& final(pool).next_index == old(pool).next_index + 1
            &&& final(pool).authority == old(pool).authority
            &&& final(pool).bump == old(pool).bump
            &&& final(pool).current_root_index == (old(pool).current_root_index + 1)
                % (ROOT_HISTORY_SIZE as int)
            &&& final(pool).roots@ == old(pool).roots@.update(
                final(pool).current_root_index as int,
                final(pool).root,
            )
            &&& ev.index == old(pool).next_index
            &&& ev.commitment == commitment
            &&& ev.root == final(pool).root
            &&& final(pool).knows_root(old(pool).root)
            &&& final(pool).knows_root(final(pool).root)
        },
{
    let ghost hash = onchain_hasher();
    let ghost n = pool.next_index as nat;
    let ghost old_members = pool.members@;
    let ghost new_members = old_members.push(commitment@);
    let index = pool.next_index;
    proof {
        lemma_capacity();
    }
    if !((index as u128) < (1u128 << 20u128)) {
        return Err(MirrorPoolError::TreeFull);
    }
    let mut filled = pool.filled_subtrees;
    let mut cur = commitment;
    let mut idx = index;
    let mut h: usize = 0;
    proof {
        assert(new_members[n as int] == commitment@);
    }
    while h < HEIGHT
        invariant
            hash == onchain_hasher(),
            old(pool).wf(),
            n == old(pool).next_index,
            n < pow2(HEIGHT as nat),
            old_members == old(pool).members@,
            new_members == old_members.push(commitment@),
            filled@.len() == HEIGHT,
            h <= HEIGHT,
            idx == shr(n, h as nat),
            cur@ == node(hash, new_members, h as nat, shr(n, h as nat)),
            h > 0 ==> is_field_be(cur@),
            h == 0 ==> cur == commitment,
            h > 0 ==> be_value(commitment@) < modulus(),
            forall|k: int| #![trigger filled@[k]]
                h <= k < HEIGHT ==> filled@[k] == old(pool).filled_subtrees@[k],
            forall|k: int| #![trigger filled@[k]] 0 <= k < h ==> is_field_be(filled@[k]@),
            forall|k: int| #![trigger filled@[k]]
                0 <= k < h && shr(n + 1, k as nat) % 2 == 1 ==> filled@[k]@ == node(
                    hash,
                    new_members,
                    k as nat,
                    (shr(n + 1, k as nat) - 1) as nat,
                ),
        decreases HEIGHT - h,
    {
        proof {
            assert((idx & 1) == idx % 2) by (bit_vector);
            assert((idx >> 1) == idx / 2) by (bit_vector);
            lemma_shr_succ(n, h as nat);
        }
        let ghost hn = h as nat;
        if idx & 1 == 0 {
            // `cur` is a left child; its right sibling is still empty.
            let zero = pool.zeros[h];
            proof {
                assert(old(pool).zeros@[h as int]@ == empty_root(hash, hn));
                lemma_node_empty(hash, new_members, hn, shr(n, hn) + 1);
            }
            let next = match poseidon2(&cur, &zero) {
                Ok(x) => x,
                Err(e) => {
                    return Err(e);
                },
            };
            filled[h] = cur;
            cur = next;
        } else {
            // `cur` is a right child; fold in the stored left sibling.
            let left = filled[h];
            proof {
                assert(old(pool).filled_subtrees@[h as int]@ == node(
                    hash,
                    old_members,
                    hn,
                    (shr(n, hn) - 1) as nat,
                ));
                assert(is_field_be(old(pool).filled_subtrees@[h as int]@));
                lemma_node_push(hash, old_members, commitment@, hn, (shr(n, hn) - 1) as nat);
            }
            let next = match poseidon2(&left, &cur) {
                Ok(x) => x,
                Err(e) => {
                    return Err(e);
                },
            };
            cur = next;
        }
        idx = idx >> 1;
        h = h + 1;
    }
    proof {
        lemma_shr_below(n, HEIGHT as nat);
    }
    pool.root = cur;
    pool.current_root_index = (pool.current_root_index + 1) % ROOT_HISTORY_SIZE as u32;
    let root_index = pool.current_root_index as usize;
    pool.roots[root_index] = cur;
    pool.filled_subtrees = filled;
    pool.next_index = pool.next_index + 1;
    pool.members = Ghost(new_members);
    proof {
        let old_i = old(pool).current_root_index as int;
        assert(old_i < 32);
        assert(root_index as int == (old_i + 1) % 32);
        assert(old_i != root_index as int);
        assert(pool.roots@[old_i] == old(pool).roots@[old_i]);
        assert(old(pool).roots@[old_i] == old(pool).root);
        assert(pool.roots@[root_index as int] == pool.root);
    }
    Ok(DepositEvent { index, commitment, root: cur })
}

/// Persistent phases of a round (Seal and Threshold are transitions, not
/// phases).
#[derive(Clone, Copy, PartialEq, Eq, Debug, Structural)]
pub enum RoundPhase {
    Propose,
    Commit,
    Execute,
    Closed,
}

/// Result of the threshold check (and whether the round produced cover).
#[derive(Clone, Copy, PartialEq, Eq, Debug, Structural)]
pub enum RoundOutcome {
    Pending,
    Go,
    Abort,
}

/// A synchronized round: its phase, sealed action, tallies, and slot windows.
#[derive(Clone, Copy, Debug)]
pub struct Round {
    pub round_id: u64,
    pub bump: u8,
    pub phase: RoundPhase,
    pub outcome: RoundOutcome,
    /// Sealed action the crowd rallies around.
    pub action: [u8; ACTION_LEN],
    pub action_set: bool,
    pub proposal_count: u64,
    pub commit_count: u64,
    pub threshold: u64,
    pub propose_end_slot: u64,
    pub commit_end_slot: u64,
    pub execute_end_slot: u64,
}

/// Zero-data marker: its existence means "this nullifier has been spent this
/// round". A round's markers are kept as the list of their keys (the spent
/// nullifiers), which `propose` checks and extends.
pub struct NullifierMarker {}

/// A participant's cover-credit balance, earned by providing cover.
#[derive(Clone, Copy, Debug)]
pub struct CreditAccount {
    pub credits: u64,
    pub bump: u8,
}

/// Zero-data marker: its existence means "this wallet has already committed
/// this round". A round's markers are kept as the list of their keys (the
/// committed wallets), which `commit` checks and extends.
pub struct CommitMarker {}

/// The event `open_round` emits.
pub struct RoundOpened {
    pub round_id: u64,
    pub threshold: u64,
}

/// The event `advance_round` emits.
pub struct RoundAdvanced {
    pub round_id: u64,
    pub phase: RoundPhase,
    pub outcome: RoundOutcome,
}

/// The round `open_round` creates at `slot`.
pub open spec fn opened_round(
    round_id: u64,
    bump: u8,
    slot: u64,
    propose_slots: u64,
    commit_slots: u64,
    execute_slots: u64,
    threshold: u64,
) -> Round {
    let propose_end = slot.saturating_add(propose_slots);
    let commit_end = propose_end.saturating_add(commit_slots);
    Round {
        round_id,
        bump,
        phase: RoundPhase::Propose,
        outcome: RoundOutcome::Pending,
        action: [0u8; ACTION_LEN],
        action_set: false,
        proposal_count: 0,
        commit_count: 0,
        threshold,
        propose_end_slot: propose_end,
        commit_end_slot: commit_end,
        execute_end_slot: commit_end.saturating_add(execute_slots),
    }
}

/// What a valid proposal does to a round: it seals the action (the first
/// valid proposal sets it; later ones must match) and counts itself.
pub open spec fn proposed(
    r: Round,
    roots: Seq<[u8; 32]>,
    slot: u64,
    root: [u8; 32],
    proof_ok: bool,
    action: [u8; 32],
) -> Result<Round, MirrorPoolError> {
    if r.phase != RoundPhase::Propose {
        Err(MirrorPoolError::WrongPhase)
    } else if slot >= r.propose_end_slot {
        Err(MirrorPoolError::WindowClosed)
    } else if root@ == zero_bytes() || !roots.contains(root) {
        Err(MirrorPoolError::UnknownRoot)
    } else if !proof_ok {
        Err(MirrorPoolError::ProofInvalid)
    } else if r.action_set && r.action != action {
        Err(MirrorPoolError::ActionMismatch)
    } else {
        Ok(
            Round {
                action,
                action_set: true,
                proposal_count: r.proposal_count.saturating_add(1),
                ..r
            },
        )
    }
}

/// What a commit does to a round: it counts one more committer.
pub open spec fn committed(r: Round, slot: u64) -> Result<Round, MirrorPoolError> {
    if r.phase != RoundPhase::Commit {
        Err(MirrorPoolError::WrongPhase)
    } else if slot >= r.commit_end_slot {
        Err(MirrorPoolError::WindowClosed)
    } else {
        Ok(Round { commit_count: r.commit_count.saturating_add(1), ..r })
    }
}

/// What advancing does to a round once the current window has elapsed: seal
/// (`Propose -> Commit`, aborting if no action was proposed), evaluate the
/// threshold (`Commit -> Execute` on GO, else abort), and finalize
/// (`Execute -> Closed`).
pub open spec fn advanced(r: Round, slot: u64) -> Result<Round, MirrorPoolError> {
    match r.phase {
        RoundPhase::Propose => {
            if slot < r.propose_end_slot {
                Err(MirrorPoolError::WindowOpen)
            } else if r.action_set {
                Ok(Round { phase: RoundPhase::Commit, ..r })
            } else {
                Ok(Round { phase: RoundPhase::Closed, outcome: RoundOutcome::Abort, ..r })
            }
        },
        RoundPhase::Commit => {
            if slot < r.commit_end_slot {
                Err(MirrorPoolError::WindowOpen)
            } else if r.commit_count >= r.threshold {
                Ok(Round { phase: RoundPhase::Execute, outcome: RoundOutcome::Go, ..r })
            } else {
                Ok(Round { phase: RoundPhase::Closed, outcome: RoundOutcome::Abort, ..r })
            }
        },
        RoundPhase::Execute => {
            if slot < r.execute_end_slot {
                Err(MirrorPoolError::WindowOpen)
            } else {
                Ok(Round { phase: RoundPhase::Closed, ..r })
            }
        },
        RoundPhase::Closed => Err(MirrorPoolError::RoundClosed),
    }
}

/// Whether the Groth16 proof attests the public inputs
/// `[root, nullifier, round_id, action]` under the verifying key.
pub open spec fn proof_accepted(
    round_id: u64,
    nullifier: [u8; 32],
    action: [u8; 32],
    root: [u8; 32],
    proof_a: [u8; 64],
    proof_b: [u8; 128],
    proof_c: [u8; 64],
    vk: &VkBytes,
) -> bool {
    groth16_accepts(
        proof_a@,
        proof_b@,
        proof_c@,
        seq![root@, nullifier@, be32(round_id as nat), action@],
        vk.alpha@,
        vk.beta@,
        vk.gamma@,
        vk.delta@,
        g1_views(vk.ic@),
    )
}

/// Whether two 32-byte strings are equal.
fn bytes32_eq(a: &[u8; 32], b: &[u8; 32]) -> (r: bool)
    ensures
        r == (a@ == b@),
{
    let mut i: usize = 0;
    while i < 32
        invariant
            i <= 32,
            a@.len() == 32,
            b@.len() == 32,
            forall|j: int| 0 <= j < i ==> a@[j] == b@[j],
        decreases 32 - i,
    {
        if a[i] != b[i] {
            return false;
        }
        i = i + 1;
    }
    assert(a@ =~= b@);
    true
}

/// Whether `root` is one of the recorded roots.
fn history_contains(roots: &[[u8; 32]; ROOT_HISTORY_SIZE], root: &[u8; 32]) -> (r: bool)
    ensures
        r == roots@.contains(*root),
{
    broadcast use vstd::array::group_array_axioms;

    let mut i: usize = 0;
    while i < ROOT_HISTORY_SIZE
        invariant
            i <= ROOT_HISTORY_SIZE,
            roots@.len() == ROOT_HISTORY_SIZE,
            forall|j: int| 0 <= j < i ==> roots@[j] != *root,
        decreases ROOT_HISTORY_SIZE - i,
    {
        if bytes32_eq(&roots[i], root) {
            proof {
                assert(roots@[i as int] =~= *root);
            }
            return true;
        }
        i = i + 1;
    }
    false
}

/// Encode a `u64` round id as a 32-byte big-endian field element, matching
/// the circuit's `round_id` public input.
pub fn round_id_to_input(round_id: u64) -> (out: [u8; 32])
    ensures
        out@ == be32(round_id as nat),
{
    let mut out = [0u8; 32];
    let bytes = u64_to_be_bytes(round_id);
    let mut i: usize = 0;
    while i < 8
        invariant
            i <= 8,
            out@.len() == 32,
            bytes@.len() == 8,
            forall|j: int| 0 <= j < 24 ==> out@[j] == 0,
            forall|j: int| 0 <= j < i ==> out@[24 + j] == bytes@[j],
        decreases 8 - i,
    {
        out[24 + i] = bytes[i];
        i = i + 1;
    }
    proof {
        assert(out@.subrange(24, 32) =~= bytes@);
        lemma_be_value_leading_zeros(out@, 24);
        lemma_be32_unique(out@, round_id as nat);
    }
    out
}

/// Open a new round in the `Propose` phase and set its slot windows.
pub fn open_round(
    round_id: u64,
    bump: u8,
    slot: u64,
    propose_slots: u64,
    commit_slots: u64,
    execute_slots: u64,
    threshold: u64,
) -> (res: (Round, RoundOpened))
    ensures
        res.0 == opened_round(
            round_id,
            bump,
            slot,
            propose_slots,
            commit_slots,
            execute_slots,
            threshold,
        ),
        res.1.round_id == round_id,
        res.1.threshold == threshold,
        res.0.round_id == round_id,
        res.0.threshold == threshold,
        res.0.phase == RoundPhase::Propose,
        res.0.outcome == RoundOutcome::Pending,
        !res.0.action_set,
        res.0.proposal_count == 0,
        res.0.commit_count == 0,
{
    let propose_end_slot = slot.saturating_add(propose_slots);
    let commit_end_slot = propose_end_slot.saturating_add(commit_slots);
    let execute_end_slot = commit_end_slot.saturating_add(execute_slots);
    let round = Round {
        round_id,
        bump,
        phase: RoundPhase::Propose,
        outcome: RoundOutcome::Pending,
        action: [0u8; ACTION_LEN],
        action_set: false,
        proposal_count: 0,
        commit_count: 0,
        threshold,
        propose_end_slot,
        commit_end_slot,
        execute_end_slot,
    };
    (round, RoundOpened { round_id, threshold })
}

/// What a proposal does to a round and its spent nullifiers: a nullifier
/// already spent is refused before anything else (its marker account cannot
/// be created twice); otherwise the round changes as `proposed` says and the
/// nullifier becomes spent.
pub open spec fn propose_outcome(
    r: Round,
    spent: Seq<[u8; 32]>,
    roots: Seq<[u8; 32]>,
    slot: u64,
    root: [u8; 32],
    proof_ok: bool,
    nullifier: [u8; 32],
    action: [u8; 32],
) -> Result<(Round, Seq<[u8; 32]>), MirrorPoolError> {
    if spent.contains(nullifier) {
        Err(MirrorPoolError::NullifierSpent)
    } else {
        match proposed(r, roots, slot, root, proof_ok, action) {
            Ok(n) => Ok((n, spent.push(nullifier))),
            Err(e) => Err(e),
        }
    }
}

/// Anonymously summon the round's action.
///
/// Verifies a Groth16 proof that the prover knows a membership note whose
/// commitment sits under `root` and whose nullifier for `round_id` is
/// `nullifier`, with `action` bound as a public input. The root must be a
/// non-zero entry of the pool's root history. The round is the account of
/// `round_id` (its address is derived from it), so a proof only counts in
/// the round whose id it attests. `spent` holds the round's spent
/// nullifiers (its nullifier marker accounts): a spent nullifier is refused,
/// and an accepted proposal spends its own.
#[verifier::spinoff_prover]
pub fn propose(
    pool: &Pool,
    round: &mut Round,
    spent: &mut Vec<[u8; 32]>,
    slot: u64,
    round_id: u64,
    nullifier: [u8; 32],
    action: [u8; ACTION_LEN],
    root: [u8; 32],
    proof_a: [u8; 64],
    proof_b: [u8; 128],
    proof_c: [u8; 64],
    vk: &VkBytes,
) -> (r: Result<(), MirrorPoolError>)
    requires
        old(round).round_id == round_id,
    ensures
        match r {
            Ok(()) => propose_outcome(
                *old(round),
                old(spent)@,
                pool.roots@,
                slot,
                root,
                proof_accepted(round_id, nullifier, action, root, proof_a, proof_b, proof_c, vk),
                nullifier,
                action,
            ) == Ok::<(Round, Seq<[u8; 32]>), MirrorPoolError>((*final(round), final(spent)@)),
            Err(e) => {
                &&& propose_outcome(
                    *old(round),
                    old(spent)@,
                    pool.roots@,
                    slot,
                    root,
                    proof_accepted(
                        round_id,
                        nullifier,
                        action,
                        root,
                        proof_a,
                        proof_b,
                        proof_c,
                        vk,
                    ),
                    nullifier,
                    action,
                ) == Err::<(Round, Seq<[u8; 32]>), MirrorPoolError>(e)
                &&& *final(round) == *old(round)
                &&& final(spent)@ == old(spent)@
            },
        },
        r is Ok ==> final(round).action == action && final(round).action_set,
        r is Ok ==> final(spent)@.contains(nullifier),
        old(spent)@.contains(nullifier) ==> r == Err::<(), MirrorPoolError>(
            MirrorPoolError::NullifierSpent,
        ),
{
    broadcast use vstd::array::group_array_axioms;

    if marker_exists(spent, &nullifier) {
        return Err(MirrorPoolError::NullifierSpent);
    }
    if round.phase != RoundPhase::Propose {
        return Err(MirrorPoolError::WrongPhase);
    }
    if !(slot < round.propose_end_slot) {
        return Err(MirrorPoolError::WindowClosed);
    }
    // The proof must reference a real, recent membership root. Empty history
    // slots are all-zero.
    let zero = [0u8; 32];
    proof {
        assert(zero@ =~= zero_bytes());
    }
    if bytes32_eq(&root, &zero) || !history_contains(&pool.roots, &root) {
        return Err(MirrorPoolError::UnknownRoot);
    }
    // Public inputs, in the circuit's canonical order.
    let public_inputs = [root, nullifier, round_id_to_input(round_id), action];
    proof {
        assert(input_views(public_inputs@) =~= seq![
            root@,
            nullifier@,
            be32(round_id as nat),
            action@,
        ]);
    }
    if !groth16_verify(&proof_a, &proof_b, &proof_c, &public_inputs, vk) {
        return Err(MirrorPoolError::ProofInvalid);
    }
    // Seal the action (first valid proposal sets it; later ones must match).
    if round.action_set {
        if !bytes32_eq(&round.action, &action) {
            return Err(MirrorPoolError::ActionMismatch);
        }
        proof {
            assert(round.action =~= action);
        }
    } else {
        round.action = action;
        round.action_set = true;
    }
    round.proposal_count = round.proposal_count.saturating_add(1);
    spent.push(nullifier);
    proof {
        assert(spent@[spent@.len() - 1] == nullifier);
    }
    Ok(())
}

/// A wallet's credit account after it earns one more credit: created at
/// zero on first use, with the given bump.
pub open spec fn credited(credit: Option<CreditAccount>, bump: u8) -> CreditAccount {
    let before = match credit {
        Some(c) => c.credits,
        None => 0u64,
    };
    CreditAccount { credits: before.saturating_add(1), bump }
}

/// What a commit does to a round, its committed wallets and the committer's
/// credit account: a wallet that already committed is refused before
/// anything else (its marker account cannot be created twice); otherwise
/// the round changes as `committed` says, the wallet is recorded, and it
/// earns a credit.
pub open spec fn commit_outcome(
    r: Round,
    committers: Seq<[u8; 32]>,
    credit: Option<CreditAccount>,
    committer: [u8; 32],
    credit_bump: u8,
    slot: u64,
) -> Result<(Round, Seq<[u8; 32]>, Option<CreditAccount>), MirrorPoolError> {
    if committers.contains(committer) {
        Err(MirrorPoolError::AlreadyCommitted)
    } else {
        match committed(r, slot) {
            Ok(n) => Ok((n, committers.push(committer), Some(credited(credit, credit_bump)))),
            Err(e) => Err(e),
        }
    }
}

/// Sign up to execute the round's action.
///
/// Counts the committer once per round and grants a cover credit.
/// `committers` holds the wallets that already committed in the round (its
/// commit marker accounts), and `credit` is `committer`'s credit account,
/// `None` until its first credit, when it is created with `credit_bump`.
pub fn commit(
    round: &mut Round,
    committers: &mut Vec<[u8; 32]>,
    credit: &mut Option<CreditAccount>,
    committer: [u8; 32],
    credit_bump: u8,
    slot: u64,
) -> (r: Result<(), MirrorPoolError>)
    ensures
        match r {
            Ok(()) => commit_outcome(
                *old(round),
                old(committers)@,
                *old(credit),
                committer,
                credit_bump,
                slot,
            ) == Ok::<(Round, Seq<[u8; 32]>, Option<CreditAccount>), MirrorPoolError>(
                (*final(round), final(committers)@, *final(credit)),
            ),
            Err(e) => {
                &&& commit_outcome(
                    *old(round),
                    old(committers)@,
                    *old(credit),
                    committer,
                    credit_bump,
                    slot,
                ) == Err::<(Round, Seq<[u8; 32]>, Option<CreditAccount>), MirrorPoolError>(e)
                &&& *final(round) == *old(round)
                &&& final(committers)@ == old(committers)@
                &&& *final(credit) == *old(credit)
            },
        },
{
    if marker_exists(committers, &committer) {
        return Err(MirrorPoolError::AlreadyCommitted);
    }
    if round.phase != RoundPhase::Commit {
        return Err(MirrorPoolError::WrongPhase);
    }
    if !(slot < round.commit_end_slot) {
        return Err(MirrorPoolError::WindowClosed);
    }
    let before = match credit {
        Some(c) => c.credits,
        None => 0,
    };
    *credit = Some(CreditAccount { credits: before.saturating_add(1), bump: credit_bump });
    round.commit_count = round.commit_count.saturating_add(1);
    committers.push(committer);
    Ok(())
}

/// Whether a round's marker list holds `key`.
fn marker_exists(markers: &Vec<[u8; 32]>, key: &[u8; 32]) -> (r: bool)
    ensures
        r == markers@.contains(*key),
{
    let mut i: usize = 0;
    while i < markers.len()
        invariant
            i <= markers@.len(),
            forall|j: int| 0 <= j < i ==> markers@[j] != *key,
        decreases markers@.len() - i,
    {
        if bytes32_eq(&markers[i], key) {
            proof {
                assert(markers@[i as int] =~= *key);
            }
            return true;
        }
        i = i + 1;
    }
    false
}

/// Advance the round to its next phase once the current window has elapsed.
#[verifier::spinoff_prover]
pub fn advance_round(round: &mut Round, slot: u64) -> (r: Result<RoundAdvanced, MirrorPoolError>)
    ensures
        match r {
            Ok(ev) => {
                &&& advanced(*old(round), slot) == Ok::<Round, MirrorPoolError>(*final(round))
                &&& ev.round_id == final(round).round_id
                &&& ev.phase == final(round).phase
                &&& ev.outcome == final(round).outcome
            },
            Err(e) => {
                &&& advanced(*old(round), slot) == Err::<Round, MirrorPoolError>(e)
                &&& *final(round) == *old(round)
            },
        },
        old(round).phase == RoundPhase::Propose && slot < old(round).propose_end_slot ==> r
            == Err::<RoundAdvanced, MirrorPoolError>(MirrorPoolError::WindowOpen),
        old(round).phase == RoundPhase::Commit && slot < old(round).commit_end_slot ==> r == Err::<
            RoundAdvanced,
            MirrorPoolError,
        >(MirrorPoolError::WindowOpen),
        old(round).phase == RoundPhase::Execute && slot < old(round).execute_end_slot ==> r
            == Err::<RoundAdvanced, MirrorPoolError>(MirrorPoolError::WindowOpen),
        r is Ok ==> final(round).threshold == old(round).threshold && final(round).commit_count
            == old(round).commit_count && final(round).action == old(round).action,
{
    match round.phase {
        RoundPhase::Propose => {
            if !(slot >= round.propose_end_slot) {
                return Err(MirrorPoolError::WindowOpen);
            }
            if round.action_set {
                round.phase = RoundPhase::Commit;
            } else {
                round.phase = RoundPhase::Closed;
                round.outcome = RoundOutcome::Abort;
            }
        },
        RoundPhase::Commit => {
            if !(slot >= round.commit_end_slot) {
                return Err(MirrorPoolError::WindowOpen);
            }
            if round.commit_count >= round.threshold {
                round.phase = RoundPhase::Execute;
                round.outcome = RoundOutcome::Go;
            } else {
                round.phase = RoundPhase::Closed;
                round.outcome = RoundOutcome::Abort;
            }
        },
        RoundPhase::Execute => {
            if !(slot >= round.execute_end_slot) {
                return Err(MirrorPoolError::WindowOpen);
            }
            round.phase = RoundPhase::Closed;
        },
        RoundPhase::Closed => {
            return Err(MirrorPoolError::RoundClosed);
        },
    }
    Ok(RoundAdvanced { round_id: round.round_id, phase: round.phase, outcome: round.outcome })
}

/// The round state machine's invariant: the outcome is decided exactly when
/// the round leaves the commit phase, a GO outcome always had its quorum,
/// an aborted round is closed (nobody executes), and the windows are
/// ordered.
pub open spec fn round_inv(r: Round) -> bool {
    &&& r.propose_end_slot <= r.commit_end_slot <= r.execute_end_slot
    &&& (r.outcome == RoundOutcome::Pending) <==> (r.phase == RoundPhase::Propose || r.phase
        == RoundPhase::Commit)
    &&& r.phase == RoundPhase::Commit ==> r.action_set
    &&& r.phase == RoundPhase::Execute ==> r.outcome == RoundOutcome::Go
    &&& r.outcome == RoundOutcome::Go ==> r.action_set && r.commit_count >= r.threshold
    &&& r.outcome == RoundOutcome::Abort ==> r.phase == RoundPhase::Closed
}

/// How far along its lifecycle a round is.
pub open spec fn phase_rank(p: RoundPhase) -> nat {
    match p {
        RoundPhase::Propose => 0,
        RoundPhase::Commit => 1,
        RoundPhase::Execute => 2,
        RoundPhase::Closed => 3,
    }
}

/// A freshly opened round is in `Propose`, pending, with nothing counted,
/// and satisfies the invariant.
pub proof fn law_opened_round_is_fresh(
    round_id: u64,
    bump: u8,
    slot: u64,
    propose_slots: u64,
    commit_slots: u64,
    execute_slots: u64,
    threshold: u64,
)
    ensures
        round_inv(
            opened_round(round_id, bump, slot, propose_slots, commit_slots, execute_slots, threshold),
        ),
        opened_round(
            round_id,
            bump,
            slot,
            propose_slots,
            commit_slots,
            execute_slots,
            threshold,
        ).phase == RoundPhase::Propose,
        !opened_round(
            round_id,
            bump,
            slot,
            propose_slots,
            commit_slots,
            execute_slots,
            threshold,
        ).action_set,
{
}

/// Every instruction keeps the round invariant.
pub proof fn law_round_invariant_is_kept(
    r: Round,
    roots: Seq<[u8; 32]>,
    slot: u64,
    root: [u8; 32],
    proof_ok: bool,
    action: [u8; 32],
)
    requires
        round_inv(r),
    ensures
        proposed(r, roots, slot, root, proof_ok, action) matches Ok(n) ==> round_inv(n),
        committed(r, slot) matches Ok(n) ==> round_inv(n),
        advanced(r, slot) matches Ok(n) ==> round_inv(n),
{
}

/// Phases only move forward, and a closed round accepts nothing more.
pub proof fn law_lifecycle_moves_forward(
    r: Round,
    roots: Seq<[u8; 32]>,
    slot: u64,
    root: [u8; 32],
    proof_ok: bool,
    action: [u8; 32],
)
    ensures
        advanced(r, slot) matches Ok(n) ==> phase_rank(n.phase) > phase_rank(r.phase),
        proposed(r, roots, slot, root, proof_ok, action) matches Ok(n) ==> n.phase == r.phase,
        committed(r, slot) matches Ok(n) ==> n.phase == r.phase,
        r.phase == RoundPhase::Closed ==> {
            &&& advanced(r, slot) == Err::<Round, MirrorPoolError>(MirrorPoolError::RoundClosed)
            &&& committed(r, slot) == Err::<Round, MirrorPoolError>(MirrorPoolError::WrongPhase)
            &&& proposed(r, roots, slot, root, proof_ok, action) == Err::<Round, MirrorPoolError>(
                MirrorPoolError::WrongPhase,
            )
        },
{
}

/// Once sealed, a round's action never changes, and the tallies never go
/// down.
pub proof fn law_sealed_action_is_final(
    r: Round,
    roots: Seq<[u8; 32]>,
    slot: u64,
    root: [u8; 32],
    proof_ok: bool,
    action: [u8; 32],
)
    ensures
        proposed(r, roots, slot, root, proof_ok, action) matches Ok(n) ==> {
            &&& n.action_set
            &&& r.action_set ==> n.action == r.action
            &&& n.proposal_count >= r.proposal_count
            &&& n.commit_count == r.commit_count
        },
        committed(r, slot) matches Ok(n) ==> {
            &&& n.action == r.action
            &&& n.action_set == r.action_set
            &&& n.commit_count >= r.commit_count
        },
        advanced(r, slot) matches Ok(n) ==> {
            &&& n.action == r.action
            &&& n.action_set == r.action_set
            &&& n.commit_count == r.commit_count
        },
{
}

/// The threshold decides: leaving the commit phase gives GO exactly when at
/// least `threshold` wallets committed, and otherwise closes the round so
/// that nobody executes.
pub proof fn law_threshold_decides(r: Round, slot: u64)
    requires
        r.phase == RoundPhase::Commit,
        slot >= r.commit_end_slot,
    ensures
        advanced(r, slot) matches Ok(n) && (n.outcome == RoundOutcome::Go) == (r.commit_count
            >= r.threshold) && (n.outcome == RoundOutcome::Go ==> n.phase == RoundPhase::Execute)
            && (n.outcome != RoundOutcome::Go ==> n.phase == RoundPhase::Closed),
{
}

/// A proof only counts against the round id it attests: the round id is a
/// public input, encoded exactly as the field element of that id.
pub proof fn law_round_id_input_is_field_element(round_id: u64, x: crate::field::F)
    requires
        x.inv(),
        x.value() == round_id,
    ensures
        be32(round_id as nat) == x@.reverse(),
{
    x.lemma_canonical_view();
    crate::bytes::lemma_le32_unique(x@, round_id as nat);
}

/// A proposal is only accepted in the propose window, against a known,
/// non-zero membership root, with a proof the verifier accepted for exactly
/// the submitted public inputs (so the action and the round id it carries
/// are the ones proved), and it never changes a sealed action.
pub proof fn law_accepted_proposal_was_proved(
    r: Round,
    roots: Seq<[u8; 32]>,
    slot: u64,
    root: [u8; 32],
    proof_ok: bool,
    action: [u8; 32],
)
    ensures
        proposed(r, roots, slot, root, proof_ok, action) is Ok ==> {
            &&& r.phase == RoundPhase::Propose
            &&& slot < r.propose_end_slot
            &&& root@ != zero_bytes()
            &&& roots.contains(root)
            &&& proof_ok
            &&& r.action_set ==> r.action == action
        },
{
}

/// One proposal per member per round: once a proposal with a nullifier is
/// accepted, every later proposal with that nullifier in the round is
/// refused, whatever else it carries.
pub proof fn law_nullifier_proposes_once(
    r: Round,
    spent: Seq<[u8; 32]>,
    roots: Seq<[u8; 32]>,
    slot: u64,
    root: [u8; 32],
    proof_ok: bool,
    nullifier: [u8; 32],
    action: [u8; 32],
    roots2: Seq<[u8; 32]>,
    slot2: u64,
    root2: [u8; 32],
    proof_ok2: bool,
    action2: [u8; 32],
)
    ensures
        propose_outcome(r, spent, roots, slot, root, proof_ok, nullifier, action) matches Ok(
            (n, s),
        ) ==> propose_outcome(n, s, roots2, slot2, root2, proof_ok2, nullifier, action2) == Err::<
            (Round, Seq<[u8; 32]>),
            MirrorPoolError,
        >(MirrorPoolError::NullifierSpent),
{
    if let Ok((n, s)) = propose_outcome(r, spent, roots, slot, root, proof_ok, nullifier, action) {
        assert(s[s.len() - 1] == nullifier);
    }
}

/// The proposal count is the number of distinct nullifiers spent in the
/// round (below the counter's ceiling).
pub proof fn law_proposals_are_distinct_members(
    r: Round,
    spent: Seq<[u8; 32]>,
    roots: Seq<[u8; 32]>,
    slot: u64,
    root: [u8; 32],
    proof_ok: bool,
    nullifier: [u8; 32],
    action: [u8; 32],
)
    requires
        r.proposal_count == spent.len(),
        spent.no_duplicates(),
        spent.len() < u64::MAX,
    ensures
        propose_outcome(r, spent, roots, slot, root, proof_ok, nullifier, action) matches Ok(
            (n, s),
        ) ==> n.proposal_count == s.len() && s.no_duplicates(),
{
    if let Ok((n, s)) = propose_outcome(r, spent, roots, slot, root, proof_ok, nullifier, action) {
        assert(!spent.contains(nullifier));
        assert forall|i: int, j: int| 0 <= i < s.len() && 0 <= j < s.len() && i != j implies s[i]
            != s[j] by {
            if j == spent.len() {
                assert(s[i] == spent[i]);
            } else if i == spent.len() {
                assert(s[j] == spent[j]);
            }
        }
    }
}

/// One commit per wallet per round: once a wallet's commit is accepted,
/// every later commit by that wallet in the round is refused.
pub proof fn law_wallet_commits_once(
    r: Round,
    committers: Seq<[u8; 32]>,
    credit: Option<CreditAccount>,
    committer: [u8; 32],
    credit_bump: u8,
    slot: u64,
    credit_bump2: u8,
    slot2: u64,
)
    ensures
        commit_outcome(r, committers, credit, committer, credit_bump, slot) matches Ok((n, c, cr))
            ==> commit_outcome(n, c, cr, committer, credit_bump2, slot2) == Err::<
            (Round, Seq<[u8; 32]>, Option<CreditAccount>),
            MirrorPoolError,
        >(MirrorPoolError::AlreadyCommitted),
{
    if let Ok((n, c, cr)) = commit_outcome(r, committers, credit, committer, credit_bump, slot) {
        assert(c[c.len() - 1] == committer);
    }
}

/// The commit count is the number of distinct wallets that committed in
/// the round (below the counter's ceiling), and each committer's credits
/// grow by one.
pub proof fn law_commits_are_distinct_wallets(
    r: Round,
    committers: Seq<[u8; 32]>,
    credit: Option<CreditAccount>,
    committer: [u8; 32],
    credit_bump: u8,
    slot: u64,
)
    requires
        r.commit_count == committers.len(),
        committers.no_duplicates(),
        committers.len() < u64::MAX,
    ensures
        commit_outcome(r, committers, credit, committer, credit_bump, slot) matches Ok((n, c, cr))
            ==> {
            &&& n.commit_count == c.len()
            &&& c.no_duplicates()
            &&& cr matches Some(a) && a.credits == (match credit {
                Some(b) => b.credits,
                None => 0u64,
            }).saturating_add(1)
        },
{
    if let Ok((n, c, cr)) = commit_outcome(r, committers, credit, committer, credit_bump, slot) {
        assert(!committers.contains(committer));
        assert forall|i: int, j: int| 0 <= i < c.len() && 0 <= j < c.len() && i != j implies c[i]
            != c[j] by {
            if j == committers.len() {
                assert(c[i] == committers[i]);
            } else if i == committers.len() {
                assert(c[j] == committers[j]);
            }
        }
    }
}

/// The pool's current root is always in its root history, so a proof
/// against it is never refused as referencing an unknown root.
pub proof fn law_current_root_is_known(pool: &Pool)
    requires
        pool.wf(),
    ensures
        pool.knows_root(pool.root),
{
    assert(pool.roots@[pool.current_root_index as int] == pool.root);
}

/// A round opens with exactly the requested threshold and id, in the
/// propose phase with nothing counted, and each window ends the given number
/// of slots after the previous one (saturating at the largest slot).
pub proof fn law_opened_round_has_requested_parameters(
    round_id: u64,
    bump: u8,
    slot: u64,
    propose_slots: u64,
    commit_slots: u64,
    execute_slots: u64,
    threshold: u64,
)
    ensures
        ({
            let r = opened_round(
                round_id,
                bump,
                slot,
                propose_slots,
                commit_slots,
                execute_slots,
                threshold,
            );
            &&& r.threshold == threshold
            &&& r.round_id == round_id
            &&& r.bump == bump
            &&& r.phase == RoundPhase::Propose
            &&& r.outcome == RoundOutcome::Pending
            &&& !r.action_set
            &&& r.proposal_count == 0
            &&& r.commit_count == 0
            &&& slot + propose_slots <= u64::MAX ==> r.propose_end_slot == slot + propose_slots
            &&& slot + propose_slots > u64::MAX ==> r.propose_end_slot == u64::MAX
            &&& r.propose_end_slot + commit_slots <= u64::MAX ==> r.commit_end_slot
                == r.propose_end_slot + commit_slots
            &&& r.propose_end_slot + commit_slots > u64::MAX ==> r.commit_end_slot == u64::MAX
            &&& r.commit_end_slot + execute_slots <= u64::MAX ==> r.execute_end_slot
                == r.commit_end_slot + execute_slots
            &&& r.commit_end_slot + execute_slots > u64::MAX ==> r.execute_end_slot == u64::MAX
        }),
{
}

/// No phase ends early: advancing before the current phase's window has
/// elapsed fails with `WindowOpen` (so the threshold is only evaluated once
/// the commit window is over), and proposals and commits are refused once
/// their window has closed.
pub proof fn law_windows_are_respected(
    r: Round,
    slot: u64,
    roots: Seq<[u8; 32]>,
    root: [u8; 32],
    proof_ok: bool,
    action: [u8; 32],
)
    ensures
        r.phase == RoundPhase::Propose && slot < r.propose_end_slot ==> advanced(r, slot) == Err::<
            Round,
            MirrorPoolError,
        >(MirrorPoolError::WindowOpen),
        r.phase == RoundPhase::Commit && slot < r.commit_end_slot ==> advanced(r, slot) == Err::<
            Round,
            MirrorPoolError,
        >(MirrorPoolError::WindowOpen),
        r.phase == RoundPhase::Execute && slot < r.execute_end_slot ==> advanced(r, slot) == Err::<
            Round,
            MirrorPoolError,
        >(MirrorPoolError::WindowOpen),
        r.phase == RoundPhase::Propose && slot >= r.propose_end_slot ==> proposed(
            r,
            roots,
            slot,
            root,
            proof_ok,
            action,
        ) == Err::<Round, MirrorPoolError>(MirrorPoolError::WindowClosed),
        r.phase == RoundPhase::Commit && slot >= r.commit_end_slot ==> committed(r, slot) == Err::<
            Round,
            MirrorPoolError,
        >(MirrorPoolError::WindowClosed),
{
}

/// Once the window has elapsed, sealing moves a round with a proposed
/// action to commit and aborts one without; finalizing closes an executing
/// round with its outcome kept. Advancing never changes the round's id,
/// threshold, windows, action or tallies.
pub proof fn law_advancing_after_the_window(r: Round, slot: u64)
    ensures
        r.phase == RoundPhase::Propose && slot >= r.propose_end_slot ==> (advanced(r, slot) matches Ok(
            n,
        ) && (r.action_set ==> n.phase == RoundPhase::Commit && n.outcome == r.outcome) && (
        !r.action_set ==> n.phase == RoundPhase::Closed && n.outcome == RoundOutcome::Abort)),
        r.phase == RoundPhase::Execute && slot >= r.execute_end_slot ==> (advanced(r, slot) matches Ok(
            n,
        ) && n.phase == RoundPhase::Closed && n.outcome == r.outcome),
        advanced(r, slot) matches Ok(n) ==> {
            &&& n.round_id == r.round_id
            &&& n.threshold == r.threshold
            &&& n.propose_end_slot == r.propose_end_slot
            &&& n.commit_end_slot == r.commit_end_slot
            &&& n.execute_end_slot == r.execute_end_slot
            &&& n.action == r.action
            &&& n.action_set == r.action_set
            &&& n.proposal_count == r.proposal_count
            &&& n.commit_count == r.commit_count
        },
{
}

/// An accepted proposal seals exactly the action it carried and counts one
/// more proposal; a commit counts one more committer. Neither touches the
/// phase, the threshold or the windows.
pub proof fn law_accepted_proposal_seals_its_action(
    r: Round,
    roots: Seq<[u8; 32]>,
    slot: u64,
    root: [u8; 32],
    proof_ok: bool,
    action: [u8; 32],
)
    ensures
        proposed(r, roots, slot, root, proof_ok, action) matches Ok(n) ==> {
            &&& n.action == action
            &&& n.action_set
            &&& r.proposal_count < u64::MAX ==> n.proposal_count == r.proposal_count + 1
            &&& n.phase == r.phase
            &&& n.threshold == r.threshold
            &&& n.commit_count == r.commit_count
            &&& n.propose_end_slot == r.propose_end_slot
            &&& n.commit_end_slot == r.commit_end_slot
            &&& n.execute_end_slot == r.execute_end_slot
        },
        committed(r, slot) matches Ok(n) ==> {
            &&& r.commit_count < u64::MAX ==> n.commit_count == r.commit_count + 1
            &&& n.phase == r.phase
            &&& n.threshold == r.threshold
            &&& n.action == r.action
            &&& n.action_set == r.action_set
            &&& n.proposal_count == r.proposal_count
        },
{
}

/// The verifier is asked about exactly the proof circuit's public inputs,
/// in the circuit's order, each as its big-endian encoding: a proof of a
/// circuit whose root, nullifier, round id and action are the submitted ones
/// is accepted exactly when Groth16 accepts it for that circuit's inputs.
pub proof fn law_verifier_checks_the_circuit_inputs(
    c: ProposeCircuit,
    round_id: u64,
    nullifier: [u8; 32],
    action: [u8; 32],
    root: [u8; 32],
    proof_a: [u8; 64],
    proof_b: [u8; 128],
    proof_c: [u8; 64],
    vk: &VkBytes,
)
    requires
        c.round_id.inv(),
        c.round_id.value() == round_id,
        root@ == c.root@.reverse(),
        nullifier@ == c.nullifier@.reverse(),
        action@ == c.action@.reverse(),
    ensures
        proof_accepted(round_id, nullifier, action, root, proof_a, proof_b, proof_c, vk)
            == groth16_accepts(
            proof_a@,
            proof_b@,
            proof_c@,
            c.public_input_values().map_values(|x: F| x@.reverse()),
            vk.alpha@,
            vk.beta@,
            vk.gamma@,
            vk.delta@,
            g1_views(vk.ic@),
        ),
{
    law_round_id_input_is_field_element(round_id, c.round_id);
    assert(c.public_input_values().map_values(|x: F| x@.reverse()) =~= seq![
        root@,
        nullifier@,
        be32(round_id as nat),
        action@,
    ]);
}

/// Each leaf's bytes reversed (big-endian leaves to little-endian, or back).
pub open spec fn reversed_leaves(leaves: Seq<Seq<u8>>) -> Seq<Seq<u8>> {
    leaves.map_values(|x: Seq<u8>| x.reverse())
}

/// Node by node, the on-chain tree over big-endian leaves is the byte
/// reverse of the off-chain tree over the same leaves little-endian.
proof fn lemma_onchain_node(leaves: Seq<Seq<u8>>, h: nat, j: nat)
    ensures
        node(onchain_hasher(), leaves, h, j) == node(
            poseidon_hasher(),
            reversed_leaves(leaves),
            h,
            j,
        ).reverse(),
    decreases h,
{
    let rl = reversed_leaves(leaves);
    if h == 0 {
        if j < leaves.len() {
            assert(leaves[j as int].reverse().reverse() =~= leaves[j as int]);
        } else {
            assert(zero_bytes().reverse() =~= zero_bytes());
        }
    } else {
        lemma_onchain_node(leaves, (h - 1) as nat, 2 * j);
        lemma_onchain_node(leaves, (h - 1) as nat, 2 * j + 1);
        let l = node(poseidon_hasher(), rl, (h - 1) as nat, 2 * j);
        let r = node(poseidon_hasher(), rl, (h - 1) as nat, 2 * j + 1);
        assert(l.reverse().reverse() =~= l);
        assert(r.reverse().reverse() =~= r);
    }
}

/// The pool's on-chain root (Poseidon syscall, big-endian) is byte for byte
/// the big-endian form of the off-chain root (light-poseidon,
/// little-endian) of a tree of the same height holding the same members.
pub proof fn law_onchain_root_matches_offchain(pool: &Pool, tree: &IncrementalMerkleTree)
    requires
        pool.wf(),
        tree.spec_height() == HEIGHT,
        tree@ == reversed_leaves(pool.members@),
    ensures
        pool.root@ == tree.spec_root().reverse(),
{
    lemma_onchain_node(pool.members@, HEIGHT as nat, 0);
}

} // verus!
