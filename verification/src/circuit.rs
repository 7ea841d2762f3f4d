//! The witness and public inputs of the proposal statement.
//!
//! Statement (default open configuration):
//!
//! ```text
//! I KNOW k, r, leaf_index, merkle_path SUCH THAT
//!     C  = H(k, r)                          (commitment)
//!   ∧ MerkleRoot(C, path, index) = root      (membership)
//!   ∧ nullifier = H(k, round_id)             (per-round nullifier)
//! ```
//!
//! Public inputs, in this exact order: `[root, nullifier, round_id, action]`.
//! The constraint system itself is synthesized by the proving stack; this
//! module builds its inputs and states what the constraints demand.
use crate::field::{from_u64, F};
use crate::merkle::MerklePath;
use crate::merkle_math::{path_root, shr};
use crate::note::Note;
use crate::poseidon::{poseidon2, poseidon_hasher, views};
use vstd::prelude::*;

verus! {

/// The root a leaf and a sibling path imply when each level's direction is
/// given by a bit (`true`: the running node is the right child).
pub open spec fn circuit_root(leaf: Seq<u8>, bits: Seq<bool>, siblings: Seq<Seq<u8>>) -> Seq<u8>
    decreases siblings.len(),
{
    if siblings.len() == 0 {
        leaf
    } else {
        let h = siblings.len() - 1;
        let cur = circuit_root(leaf, bits, siblings.drop_last());
        if bits[h] {
            poseidon2(siblings.last(), cur)
        } else {
            poseidon2(cur, siblings.last())
        }
    }
}

/// Witness + public inputs for one proposal proof.
#[derive(Clone, Debug)]
pub struct ProposeCircuit {
    /// Merkle tree height (length of the path).
    pub height: usize,
    // Public inputs.
    pub root: F,
    pub nullifier: F,
    pub round_id: F,
    pub action: F,
    // Private witness.
    pub k: F,
    pub r: F,
    pub path_elements: Vec<F>,
    pub path_indices: Vec<bool>,
}

impl ProposeCircuit {
    /// What the constraint system demands of the witness: the path has
    /// `height` levels, `H(k, r)` folds up the path to `root`, and the
    /// nullifier is `H(k, round_id)`.
    pub open spec fn is_satisfied(&self) -> bool {
        &&& self.path_elements@.len() == self.height
        &&& self.path_indices@.len() == self.height
        &&& circuit_root(poseidon2(self.k@, self.r@), self.path_indices@, views(self.path_elements@))
            == self.root@
        &&& self.nullifier@ == poseidon2(self.k@, self.round_id@)
    }

    /// The public inputs in the order the constraint system allocates them:
    /// `root`, `nullifier`, `round_id`, `action`.
    pub open spec fn public_input_values(&self) -> Seq<F> {
        seq![self.root, self.nullifier, self.round_id, self.action]
    }

    /// Build the circuit from off-chain values.
    pub fn from_witness(note: &Note, path: &MerklePath, root: F, round_id: F, action: F) -> (c: Self)
        requires
            path.siblings@.len() <= 32,
        ensures
            c.height == path.siblings@.len(),
            c.root == root,
            c.nullifier@ == note.spec_nullifier(round_id),
            c.round_id == round_id,
            c.action == action,
            c.k == note.k,
            c.r == note.r,
            c.path_elements@ == path.siblings@,
            c.path_indices@.len() == c.height,
            forall|i: int|
                0 <= i < c.height ==> #[trigger] c.path_indices@[i] == (shr(
                    path.index as nat,
                    i as nat,
                ) % 2 == 1),
    {
        let height = path.siblings.len();
        let mut path_indices: Vec<bool> = Vec::new();
        let mut i: usize = 0;
        while i < height
            invariant
                i <= height,
                height <= 32,
                path_indices@.len() == i,
                forall|j: int|
                    0 <= j < i ==> #[trigger] path_indices@[j] == (shr(path.index as nat, j as nat)
                        % 2 == 1),
            decreases height - i,
        {
            let shifted = path.index >> i;
            proof {
                vstd::bits::lemma_usize_shr_is_div(path.index, i);
                crate::merkle_math::lemma_shr_div(path.index as nat, i as nat);
                assert((shifted & 1) == shifted % 2) by (bit_vector);
            }
            path_indices.push(shifted & 1 == 1);
            i = i + 1;
        }
        let path_elements = copy_elements(&path.siblings);
        ProposeCircuit {
            height,
            root,
            nullifier: note.nullifier(round_id),
            round_id,
            action,
            k: note.k,
            r: note.r,
            path_elements,
            path_indices,
        }
    }

    /// Public inputs in the canonical order expected by the verifier.
    pub fn public_inputs(&self) -> (v: Vec<F>)
        ensures
            v@ == self.public_input_values(),
            v@ == seq![self.root, self.nullifier, self.round_id, self.action],
    {
        let mut v: Vec<F> = Vec::new();
        v.push(self.root);
        v.push(self.nullifier);
        v.push(self.round_id);
        v.push(self.action);
        proof {
            assert(v@ =~= seq![self.root, self.nullifier, self.round_id, self.action]);
        }
        v
    }

    /// A structurally-valid all-zero circuit of the given height, used to
    /// run the trusted setup (only the constraint shape matters there).
    pub fn dummy(height: usize) -> (c: Self)
        ensures
            c.height == height,
            c.root.value() == 0,
            c.nullifier.value() == 0,
            c.round_id.value() == 0,
            c.action.value() == 0,
            c.k.value() == 0,
            c.r.value() == 0,
            c.path_elements@.len() == height,
            forall|i: int| 0 <= i < height ==> (#[trigger] c.path_elements@[i]).value() == 0,
            c.path_indices@.len() == height,
            forall|i: int| 0 <= i < height ==> !#[trigger] c.path_indices@[i],
    {
        let zero = from_u64(0);
        let mut path_elements: Vec<F> = Vec::new();
        let mut path_indices: Vec<bool> = Vec::new();
        let mut i: usize = 0;
        while i < height
            invariant
                i <= height,
                zero.value() == 0,
                path_elements@.len() == i,
                path_indices@.len() == i,
                forall|j: int| 0 <= j < i ==> (#[trigger] path_elements@[j]).value() == 0,
                forall|j: int| 0 <= j < i ==> !#[trigger] path_indices@[j],
            decreases height - i,
        {
            path_elements.push(zero);
            path_indices.push(false);
            i = i + 1;
        }
        ProposeCircuit {
            height,
            root: zero,
            nullifier: zero,
            round_id: zero,
            action: zero,
            k: zero,
            r: zero,
            path_elements,
            path_indices,
        }
    }
}

/// A copy of a list of field elements.
fn copy_elements(v: &Vec<F>) -> (r: Vec<F>)
    ensures
        r@ == v@,
{
    let mut r: Vec<F> = Vec::new();
    let mut i: usize = 0;
    while i < v.len()
        invariant
            i <= v@.len(),
            r@ == v@.take(i as int),
        decreases v@.len() - i,
    {
        r.push(v[i]);
        proof {
            assert(v@.take(i + 1) =~= v@.take(i as int).push(v@[i as int]));
        }
        i = i + 1;
    }
    proof {
        assert(v@.take(i as int) =~= v@);
    }
    r
}

/// Direction bits taken from an index fold a path exactly as the index
/// does.
pub proof fn lemma_circuit_root_is_path_root(
    leaf: Seq<u8>,
    index: nat,
    bits: Seq<bool>,
    siblings: Seq<Seq<u8>>,
)
    requires
        bits.len() >= siblings.len(),
        forall|i: int| 0 <= i < siblings.len() ==> #[trigger] bits[i] == (shr(index, i as nat) % 2 == 1),
    ensures
        circuit_root(leaf, bits, siblings) == path_root(poseidon_hasher(), leaf, index, siblings),
    decreases siblings.len(),
{
    if siblings.len() > 0 {
        lemma_circuit_root_is_path_root(leaf, index, bits, siblings.drop_last());
        let h = siblings.len() - 1;
        assert(bits[h] == (shr(index, h as nat) % 2 == 1));
    }
}

/// A member's honest witness satisfies the statement: built from a note and
/// the tree's opening of the note's commitment, the circuit's constraints
/// hold for the tree's root.
pub proof fn law_honest_witness_satisfies(
    c: ProposeCircuit,
    note: Note,
    path: MerklePath,
    round_id: F,
)
    requires
        c.height == path.siblings@.len(),
        c.nullifier@ == note.spec_nullifier(round_id),
        c.round_id == round_id,
        c.k == note.k,
        c.r == note.r,
        c.path_elements@ == path.siblings@,
        c.path_indices@.len() == c.height,
        forall|i: int|
            0 <= i < c.height ==> #[trigger] c.path_indices@[i] == (shr(path.index as nat, i as nat)
                % 2 == 1),
        path.spec_root(note.spec_commitment()) == c.root@,
    ensures
        c.is_satisfied(),
{
    lemma_circuit_root_is_path_root(
        note.spec_commitment(),
        path.index as nat,
        c.path_indices@,
        views(c.path_elements@),
    );
}

} // verus!
