//! Membership notes, commitments, and nullifiers.
//!
//! A note is the secret pre-image `(k, r)` a member keeps after joining. From
//! it come the commitment `C = H(k, r)` (the Merkle leaf) and the per-round
//! nullifier `nf = H(k, round_id)`.
use crate::field::F;
use crate::poseidon::{hash2, poseidon2};
use vstd::prelude::*;

verus! {

/// A member's secret note: the pre-image of a pool commitment.
#[derive(Clone, Copy, Debug)]
pub struct Note {
    /// Nullifier secret.
    pub k: F,
    /// Commitment randomness.
    pub r: F,
}

impl Note {
    /// Construct a note from explicit secrets (e.g. when restoring a backup).
    pub fn new(k: F, r: F) -> (note: Note)
        ensures
            note.k == k,
            note.r == r,
    {
        Note { k, r }
    }

    /// The pool commitment `H(k, r)`.
    pub open spec fn spec_commitment(self) -> Seq<u8> {
        poseidon2(self.k@, self.r@)
    }

    /// The nullifier `H(k, round_id)` for a round.
    pub open spec fn spec_nullifier(self, round_id: F) -> Seq<u8> {
        poseidon2(self.k@, round_id@)
    }

    /// Pool commitment `C = H(k, r)` — the leaf inserted into the tree.
    pub fn commitment(&self) -> (c: F)
        ensures
            c@ == self.spec_commitment(),
    {
        hash2(self.k, self.r)
    }

    /// Per-round proposal nullifier `nf = H(k, round_id)`.
    pub fn nullifier(&self, round_id: F) -> (nf: F)
        ensures
            nf@ == self.spec_nullifier(round_id),
    {
        hash2(self.k, round_id)
    }
}

impl PartialEq for Note {
    fn eq(&self, other: &Note) -> (res: bool) {
        self.k == other.k && self.r == other.r
    }
}

impl vstd::std_specs::cmp::PartialEqSpecImpl for Note {
    open spec fn obeys_eq_spec() -> bool {
        true
    }

    open spec fn eq_spec(&self, other: &Note) -> bool {
        self.k@ == other.k@ && self.r@ == other.r@
    }
}

impl Eq for Note {}

/// The nullifier is keyed on `k` alone: notes sharing `k` share it in every
/// round, whatever their `r`.
pub proof fn law_nullifier_depends_on_k_only(a: Note, b: Note, round_id: F)
    requires
        a.k == b.k,
    ensures
        a.spec_nullifier(round_id) == b.spec_nullifier(round_id),
{
}

/// Commitments and nullifiers are functions of the note: the same note and
/// round always give the same values (so a second proposal in a round is
/// detectable).
pub proof fn law_note_values_are_deterministic(a: Note, b: Note, round_id: F)
    requires
        a == b,
    ensures
        a.spec_commitment() == b.spec_commitment(),
        a.spec_nullifier(round_id) == b.spec_nullifier(round_id),
{
}

} // verus!
