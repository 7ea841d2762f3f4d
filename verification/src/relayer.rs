//! The trust-minimized proposal submitter's wire format.
//!
//! The relayer submits a proposer's `propose` instruction so the proposer's
//! wallet is never the fee payer. The action is bound inside the proof, so
//! the relayer cannot alter it; it can only submit or withhold. This module
//! builds the exact instruction: its data bytes and its accounts.
use crate::bytes::{le_bytes, lemma_le_bytes_unique, u64_to_le_bytes};
use crate::proposal::ProposalArgs;
use sha2::{Digest, Sha256};
use solana_pubkey::Pubkey;
use vstd::prelude::*;
use vstd::string::StringSliceAdditionalSpecFns;

verus! {

/// Groth16 verification needs well above the 200k default compute budget.
pub const DEFAULT_COMPUTE_UNIT_LIMIT: u32 = 1_400_000;

/// What `sha2::Sha256::digest` returns for the given bytes.
pub uninterp spec fn sha256(data: Seq<u8>) -> Seq<u8>;

/// Calls `Sha256::digest` of the `sha2` crate. The contract claims only that
/// the 32-byte result is `sha256` of the input.
#[verifier::external_body]
fn sha256_digest(data: &[u8]) -> (r: [u8; 32])
    ensures
        r@ == sha256(data@),
{
    Sha256::digest(data).into()
}

/// The program-derived address `Pubkey::try_find_program_address` finds
/// for the seeds and program id (`None` when it finds none; the bump it
/// finds is not kept).
pub uninterp spec fn program_address(seeds: Seq<Seq<u8>>, program_id: Seq<u8>) -> Option<Seq<u8>>;

/// Calls `Pubkey::try_find_program_address` of `solana-pubkey`, which tries
/// the bump seeds 255 down to 1 and returns the first address off the curve,
/// or `None` when there is none or the seeds are too many or too long. The
/// contract claims only that the result is `program_address` of the seeds and
/// the program id.
#[verifier::external_body]
fn find_program_address(seeds: &Vec<Vec<u8>>, program_id: &[u8; 32]) -> (r: Option<[u8; 32]>)
    ensures
        match r {
            Some(a) => program_address(seeds@.map_values(|s: Vec<u8>| s@), program_id@) == Some(a@),
            None => program_address(seeds@.map_values(|s: Vec<u8>| s@), program_id@) is None,
        },
{
    let slices: Vec<&[u8]> = seeds.iter().map(|s| s.as_slice()).collect();
    Pubkey::try_find_program_address(&slices, &Pubkey::new_from_array(*program_id)).map(
        |(a, _)| a.to_bytes(),
    )
}

/// `r` is the address `a` names: both absent, or both present and equal.
pub open spec fn is_address(r: Option<[u8; 32]>, a: Option<Seq<u8>>) -> bool {
    match r {
        Some(x) => a == Some(x@),
        None => a is None,
    }
}

/// A copy of a byte slice.
fn to_vec(s: &[u8]) -> (v: Vec<u8>)
    ensures
        v@ == s@,
{
    let mut v: Vec<u8> = Vec::new();
    append(&mut v, s);
    proof {
        assert(v@ =~= s@);
    }
    v
}

/// Append the bytes of `s` to `v`.
fn append(v: &mut Vec<u8>, s: &[u8])
    ensures
        final(v)@ == old(v)@ + s@,
{
    let mut i: usize = 0;
    while i < s.len()
        invariant
            i <= s@.len(),
            v@ == old(v)@ + s@.take(i as int),
        decreases s@.len() - i,
    {
        v.push(s[i]);
        proof {
            assert(s@.take(i + 1) =~= s@.take(i as int).push(s@[i as int]));
            assert(old(v)@ + s@.take(i + 1) =~= (old(v)@ + s@.take(i as int)).push(s@[i as int]));
        }
        i = i + 1;
    }
    proof {
        assert(s@.take(i as int) =~= s@);
    }
}

/// The system program's id (all zero).
fn system_program_id() -> (id: [u8; 32])
    ensures
        id@ == crate::field::zero_bytes(),
{
    let id = [0u8; 32];
    proof {
        assert(id@ =~= crate::field::zero_bytes());
    }
    id
}

/// The instruction-name preimage of the discriminator.
pub open spec fn propose_preimage() -> Seq<u8> {
    "global:propose".spec_bytes()
}

/// Anchor's global instruction discriminator: `sha256("global:<name>")[..8]`.
pub fn propose_discriminator() -> (d: [u8; 8])
    ensures
        d@ == sha256(propose_preimage()).take(8),
{
    let digest = sha256_digest("global:propose".as_bytes());
    let mut d = [0u8; 8];
    let mut i: usize = 0;
    while i < 8
        invariant
            i <= 8,
            d@.len() == 8,
            digest@.len() == 32,
            forall|j: int| 0 <= j < i ==> d@[j] == digest@[j],
        decreases 8 - i,
    {
        d[i] = digest[i];
        i = i + 1;
    }
    proof {
        assert(d@ =~= digest@.take(8));
    }
    d
}

/// The seeds of the pool account.
pub open spec fn pool_seeds() -> Seq<Seq<u8>> {
    seq!["pool".spec_bytes()]
}

/// The seeds of a round account.
pub open spec fn round_seeds(round_id: u64) -> Seq<Seq<u8>> {
    seq!["round".spec_bytes(), le_bytes(round_id as nat, 8)]
}

/// The seeds of a nullifier marker account.
pub open spec fn nullifier_seeds(round_id: u64, nullifier: Seq<u8>) -> Seq<Seq<u8>> {
    seq!["nullifier".spec_bytes(), le_bytes(round_id as nat, 8), nullifier]
}

/// `round_id` as 8 little-endian bytes.
fn round_id_le(round_id: u64) -> (v: Vec<u8>)
    ensures
        v@ == le_bytes(round_id as nat, 8),
{
    let b = u64_to_le_bytes(round_id);
    proof {
        lemma_le_bytes_unique(b@);
    }
    to_vec(b.as_slice())
}

/// The pool PDA (`seeds = ["pool"]`); `None` when no bump seed gives one.
pub fn pool_pda(program_id: &[u8; 32]) -> (a: Option<[u8; 32]>)
    ensures
        is_address(a, program_address(pool_seeds(), program_id@)),
{
    let mut seeds: Vec<Vec<u8>> = Vec::new();
    seeds.push(to_vec("pool".as_bytes()));
    proof {
        assert(seeds@.map_values(|s: Vec<u8>| s@) =~= pool_seeds());
    }
    find_program_address(&seeds, program_id)
}

/// A round PDA (`seeds = ["round", round_id_le]`); `None` when no bump seed
/// gives one.
pub fn round_pda(program_id: &[u8; 32], round_id: u64) -> (a: Option<[u8; 32]>)
    ensures
        is_address(a, program_address(round_seeds(round_id), program_id@)),
{
    let mut seeds: Vec<Vec<u8>> = Vec::new();
    seeds.push(to_vec("round".as_bytes()));
    seeds.push(round_id_le(round_id));
    proof {
        assert(seeds@.map_values(|s: Vec<u8>| s@) =~= round_seeds(round_id));
    }
    find_program_address(&seeds, program_id)
}

/// A nullifier marker PDA (`seeds = ["nullifier", round_id_le, nullifier]`);
/// `None` when no bump seed gives one.
pub fn nullifier_pda(program_id: &[u8; 32], round_id: u64, nullifier: &[u8; 32]) -> (a: Option<
    [u8; 32],
>)
    ensures
        is_address(a, program_address(nullifier_seeds(round_id, nullifier@), program_id@)),
{
    let mut seeds: Vec<Vec<u8>> = Vec::new();
    seeds.push(to_vec("nullifier".as_bytes()));
    seeds.push(round_id_le(round_id));
    seeds.push(to_vec(nullifier.as_slice()));
    proof {
        assert(seeds@.map_values(|s: Vec<u8>| s@) =~= nullifier_seeds(round_id, nullifier@));
    }
    find_program_address(&seeds, program_id)
}

/// An account an instruction touches.
#[derive(Clone, Copy, Debug)]
pub struct AccountMetaBytes {
    pub pubkey: [u8; 32],
    pub is_signer: bool,
    pub is_writable: bool,
}

/// An instruction: the program it calls, the accounts it touches, and its
/// data.
#[derive(Clone, Debug)]
pub struct InstructionBytes {
    pub program_id: [u8; 32],
    pub accounts: Vec<AccountMetaBytes>,
    pub data: Vec<u8>,
}

/// The `propose` instruction data, byte-identical to Anchor's client
/// encoding: `discriminator(8) || round_id(8, LE) || nullifier(32) ||
/// action(32) || root(32) || proof_a(64) || proof_b(128) || proof_c(64)`.
pub open spec fn propose_data(p: ProposalArgs) -> Seq<u8> {
    sha256(propose_preimage()).take(8) + le_bytes(p.round_id as nat, 8) + p.nullifier@ + p.action@
        + p.root@ + p.proof_a@ + p.proof_b@ + p.proof_c@
}

/// Build the `propose` instruction with `payer` (the relayer) as fee payer;
/// `None` exactly when one of its three program-derived addresses does not
/// exist.
#[verifier::spinoff_prover]
pub fn propose_instruction(program_id: &[u8; 32], payer: &[u8; 32], p: &ProposalArgs) -> (r:
    Option<InstructionBytes>)
    ensures
        r is None <==> {
            ||| program_address(pool_seeds(), program_id@) is None
            ||| program_address(round_seeds(p.round_id), program_id@) is None
            ||| program_address(nullifier_seeds(p.round_id, p.nullifier@), program_id@) is None
        },
        r matches Some(ix) ==> {
            &&& ix.program_id == *program_id
            &&& ix.data@ == propose_data(*p)
            &&& ix.accounts@.len() == 5
            &&& program_address(pool_seeds(), program_id@) == Some(ix.accounts@[0].pubkey@)
            &&& !ix.accounts@[0].is_signer && !ix.accounts@[0].is_writable
            &&& program_address(round_seeds(p.round_id), program_id@) == Some(
                ix.accounts@[1].pubkey@,
            )
            &&& !ix.accounts@[1].is_signer && ix.accounts@[1].is_writable
            &&& program_address(nullifier_seeds(p.round_id, p.nullifier@), program_id@) == Some(
                ix.accounts@[2].pubkey@,
            )
            &&& !ix.accounts@[2].is_signer && ix.accounts@[2].is_writable
            &&& ix.accounts@[3].pubkey == *payer
            &&& ix.accounts@[3].is_signer && ix.accounts@[3].is_writable
            &&& ix.accounts@[4].pubkey@ == crate::field::zero_bytes()
            &&& !ix.accounts@[4].is_signer && !ix.accounts@[4].is_writable
        },
{
    let pool = match pool_pda(program_id) {
        Some(a) => a,
        None => {
            return None;
        },
    };
    let round = match round_pda(program_id, p.round_id) {
        Some(a) => a,
        None => {
            return None;
        },
    };
    let marker = match nullifier_pda(program_id, p.round_id, &p.nullifier) {
        Some(a) => a,
        None => {
            return None;
        },
    };
    let mut data: Vec<u8> = Vec::new();
    let disc = propose_discriminator();
    append(&mut data, disc.as_slice());
    let rid = u64_to_le_bytes(p.round_id);
    proof {
        lemma_le_bytes_unique(rid@);
    }
    append(&mut data, rid.as_slice());
    append(&mut data, p.nullifier.as_slice());
    append(&mut data, p.action.as_slice());
    append(&mut data, p.root.as_slice());
    append(&mut data, p.proof_a.as_slice());
    append(&mut data, p.proof_b.as_slice());
    append(&mut data, p.proof_c.as_slice());
    let mut accounts: Vec<AccountMetaBytes> = Vec::new();
    accounts.push(AccountMetaBytes { pubkey: pool, is_signer: false, is_writable: false });
    accounts.push(AccountMetaBytes { pubkey: round, is_signer: false, is_writable: true });
    accounts.push(AccountMetaBytes { pubkey: marker, is_signer: false, is_writable: true });
    accounts.push(AccountMetaBytes { pubkey: *payer, is_signer: true, is_writable: true });
    accounts.push(
        AccountMetaBytes { pubkey: system_program_id(), is_signer: false, is_writable: false },
    );
    Some(InstructionBytes { program_id: *program_id, accounts, data })
}

} // verus!
