//! Build an anonymous proposal: turn a membership note and a tree snapshot
//! into the arguments the on-chain `propose` instruction verifies.
//!
//! The proof itself is produced by the caller's prover from the circuit
//! built here; everything else — the opening, the public inputs and their
//! byte encodings — is computed and checked here.
use crate::bytes::le_bytes;
use crate::circuit::ProposeCircuit;
use crate::field::{from_bytes_be, from_u64, to_bytes_be, F};
use crate::merkle::IncrementalMerkleTree;
use crate::merkle_math::opening_path;
use crate::note::Note;
use crate::policy::{encodes_action, lemma_action_encoding_is_field_element, Action};
use crate::poseidon::{poseidon2, poseidon_hasher, views};
use crate::solana_format::ProofBytes;
use vstd::prelude::*;

verus! {

/// The exact arguments for the on-chain `propose` instruction.
#[derive(Clone, Debug)]
pub struct ProposalArgs {
    pub round_id: u64,
    pub root: [u8; 32],
    pub nullifier: [u8; 32],
    pub action: [u8; 32],
    pub proof_a: [u8; 64],
    pub proof_b: [u8; 128],
    pub proof_c: [u8; 64],
}

/// Why a proposal could not be built.
#[derive(Clone, Copy, Debug, PartialEq, Eq, Structural)]
pub enum ProposalError {
    /// The given leaf index is not in the tree.
    LeafNotInTree(usize),
}

/// The circuit a proposal proves: the note, the opening of `leaf_index`, the
/// tree's root, the round id and the action's field element.
pub open spec fn is_proposal_circuit(
    c: ProposeCircuit,
    note: Note,
    tree: IncrementalMerkleTree,
    leaf_index: usize,
    round_id: u64,
    action: Action,
) -> bool {
    &&& c.height == tree.spec_height()
    &&& c.root@ == tree.spec_root()
    &&& c.round_id@ == le_bytes(round_id as nat, 32)
    &&& encodes_action(c.action@.reverse(), action)
    &&& c.k == note.k
    &&& c.r == note.r
    &&& c.nullifier@ == poseidon2(note.k@, c.round_id@)
    &&& views(c.path_elements@) == opening_path(
        poseidon_hasher(),
        tree@,
        leaf_index as nat,
        tree.spec_height(),
    )
}

/// Produce a proposal for `action` in `round_id`, proving membership of
/// `note` at `leaf_index` in `tree`; `prove` turns the circuit into a proof.
#[verifier::spinoff_prover]
pub fn build_proposal<P: FnOnce(ProposeCircuit) -> ProofBytes>(
    note: &Note,
    tree: &IncrementalMerkleTree,
    leaf_index: usize,
    round_id: u64,
    action: &Action,
    prove: P,
) -> (res: Result<ProposalArgs, ProposalError>)
    requires
        tree.wf(),
        forall|c: ProposeCircuit| prove.requires((c,)),
    ensures
        res is Err <==> leaf_index >= tree@.len(),
        res matches Err(e) ==> e == ProposalError::LeafNotInTree(leaf_index),
        res matches Ok(args) ==> {
            &&& args.round_id == round_id
            &&& args.root@ == tree.spec_root().reverse()
            &&& args.nullifier@ == poseidon2(note.k@, le_bytes(round_id as nat, 32)).reverse()
            &&& encodes_action(args.action@, *action)
            &&& exists|c: ProposeCircuit, p: ProofBytes|
                {
                    &&& is_proposal_circuit(c, *note, *tree, leaf_index, round_id, *action)
                    &&& (tree@[leaf_index as int] == note.spec_commitment() ==> c.is_satisfied())
                    &&& #[trigger] prove.ensures((c,), p)
                    &&& args.proof_a == p.a
                    &&& args.proof_b == p.b
                    &&& args.proof_c == p.c
                }
        },
{
    let path = match tree.opening(leaf_index) {
        Some(p) => p,
        None => {
            return Err(ProposalError::LeafNotInTree(leaf_index));
        },
    };
    let root = tree.root();
    let round_id_fr = from_u64(round_id);
    let action_bytes = action.to_field_bytes();
    proof {
        lemma_action_encoding_is_field_element(action_bytes@, *action);
        tree.lemma_height_bound();
        assert(path.siblings@.len() == views(path.siblings@).len());
    }
    let action_fr = from_bytes_be(&action_bytes).unwrap();
    let circuit = ProposeCircuit::from_witness(note, &path, root, round_id_fr, action_fr);
    let ghost c = circuit;
    proof {
        crate::merkle::law_openings_verify(tree, &path);
        assert(action_bytes@.reverse().reverse() =~= action_bytes@);
        if tree@[leaf_index as int] == note.spec_commitment() {
            crate::circuit::law_honest_witness_satisfies(c, *note, path, round_id_fr);
        }
    }
    let proof = prove(circuit);
    let args = ProposalArgs {
        round_id,
        root: to_bytes_be(&root),
        nullifier: to_bytes_be(&note.nullifier(round_id_fr)),
        action: action_bytes,
        proof_a: proof.a,
        proof_b: proof.b,
        proof_c: proof.c,
    };
    proof {
        assert(is_proposal_circuit(c, *note, *tree, leaf_index, round_id, *action));
    }
    Ok(args)
}

} // verus!
