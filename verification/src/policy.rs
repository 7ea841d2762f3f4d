//! The agent's action policy — the safety core of the protocol.
//!
//! An agent only joins rounds whose action lies within a policy it accepted:
//! a whitelisted action kind at a standardized denomination. A poison action
//! is simply not expressible within the envelope.
use crate::bytes::{be_u64_at, lemma_be_is_reversed_le, lemma_be_value_leading_zeros, u64_to_be_bytes};
use crate::field::{be_value, le_value, modulus, pow256};
use vstd::prelude::*;

verus! {

/// A standardized, non-custodial action the crowd can rally around.
#[derive(Clone, Copy, PartialEq, Eq, Debug, Structural)]
pub enum ActionKind {
    Stake,
    Unstake,
}

/// A concrete action: a kind at a fixed-denomination amount (lamports).
#[derive(Clone, Copy, PartialEq, Eq, Debug, Structural)]
pub struct Action {
    pub kind: ActionKind,
    pub amount: u64,
}

/// The byte that encodes an action kind.
pub open spec fn kind_code(kind: ActionKind) -> u8 {
    match kind {
        ActionKind::Stake => 0,
        ActionKind::Unstake => 1,
    }
}

/// `s` is the 32-byte big-endian field encoding of `a`: zero bytes, then the
/// kind at byte 23, then the amount big-endian in the low 8 bytes.
pub open spec fn encodes_action(s: Seq<u8>, a: Action) -> bool {
    &&& s.len() == 32
    &&& forall|i: int| 0 <= i < 23 ==> s[i] == 0
    &&& s[23] == kind_code(a.kind)
    &&& be_value(s.subrange(24, 32)) == a.amount
}

/// `s` has the shape of an action encoding: leading zeros and a known kind.
pub open spec fn is_action_encoding(s: Seq<u8>) -> bool {
    &&& s.len() == 32
    &&& forall|i: int| 0 <= i < 23 ==> s[i] == 0
    &&& s[23] <= 1
}

impl Action {
    /// Encode as the 32-byte big-endian field element used for the on-chain
    /// `action` public input: `kind` at byte 23, `amount` big-endian in the
    /// low 8 bytes. The value stays far below the field modulus and is
    /// reversible.
    pub fn to_field_bytes(&self) -> (out: [u8; 32])
        ensures
            encodes_action(out@, *self),
    {
        let mut out = [0u8; 32];
        out[23] = match self.kind {
            ActionKind::Stake => 0u8,
            ActionKind::Unstake => 1u8,
        };
        let amount = u64_to_be_bytes(self.amount);
        let mut i: usize = 0;
        while i < 8
            invariant
                i <= 8,
                out@.len() == 32,
                amount@.len() == 8,
                forall|j: int| 0 <= j < 23 ==> out@[j] == 0,
                out@[23] == kind_code(self.kind),
                forall|j: int| 0 <= j < i ==> out@[24 + j] == amount@[j],
            decreases 8 - i,
        {
            out[24 + i] = amount[i];
            i = i + 1;
        }
        proof {
            assert(out@.subrange(24, 32) =~= amount@);
        }
        out
    }

    /// Inverse of [`Action::to_field_bytes`]. Returns `None` if the encoding
    /// is not a canonical action (unexpected non-zero bytes or unknown kind).
    pub fn from_field_bytes(bytes: &[u8; 32]) -> (r: Option<Action>)
        ensures
            r is Some <==> is_action_encoding(bytes@),
            r matches Some(a) ==> encodes_action(bytes@, a),
    {
        let mut i: usize = 0;
        while i < 23
            invariant
                i <= 23,
                bytes@.len() == 32,
                forall|j: int| 0 <= j < i ==> bytes@[j] == 0,
            decreases 23 - i,
        {
            if bytes[i] != 0 {
                return None;
            }
            i = i + 1;
        }
        let kind = match bytes[23] {
            0 => ActionKind::Stake,
            1 => ActionKind::Unstake,
            _ => {
                return None;
            },
        };
        let amount = be_u64_at(bytes, 24);
        Some(Action { kind, amount })
    }
}

/// An action has exactly one encoding, and an encoding denotes exactly one
/// action: `from_field_bytes(to_field_bytes(a)) == Some(a)`, and whatever
/// `from_field_bytes` accepts re-encodes to the same bytes.
pub proof fn law_action_encoding_is_bijective(s: Seq<u8>, t: Seq<u8>, a: Action, b: Action)
    requires
        encodes_action(s, a),
        encodes_action(t, b),
    ensures
        is_action_encoding(s),
        (s == t) <==> (a == b),
{
    if a == b {
        lemma_be_is_reversed_le(s.subrange(24, 32));
        lemma_be_is_reversed_le(t.subrange(24, 32));
        crate::bytes::lemma_le_value_injective(
            s.subrange(24, 32).reverse(),
            t.subrange(24, 32).reverse(),
        );
        assert(s.subrange(24, 32).reverse().reverse() =~= s.subrange(24, 32));
        assert(t.subrange(24, 32).reverse().reverse() =~= t.subrange(24, 32));
        assert forall|i: int| 0 <= i < 32 implies s[i] == t[i] by {
            if i >= 24 {
                assert(s[i] == s.subrange(24, 32)[i - 24]);
                assert(t[i] == t.subrange(24, 32)[i - 24]);
            }
        }
        assert(s =~= t);
    }
    if s == t {
        assert(kind_code(a.kind) == kind_code(b.kind));
    }
}

/// An action's encoding denotes a value below the field modulus, so it is a
/// valid big-endian field element.
pub proof fn lemma_action_encoding_is_field_element(s: Seq<u8>, a: Action)
    requires
        encodes_action(s, a),
    ensures
        le_value(s.reverse()) < modulus(),
{
    lemma_be_is_reversed_le(s);
    lemma_be_value_leading_zeros(s, 23);
    crate::field::lemma_le_value_bound(s.subrange(23, 32).reverse());
    lemma_be_is_reversed_le(s.subrange(23, 32));
    assert(pow256(9) == 4722366482869645213696nat) by {
        reveal_with_fuel(pow256, 10);
    }
}

/// The envelope of actions an agent will mirror.
#[derive(Clone, Debug)]
pub struct Policy {
    /// Action kinds the agent is willing to perform.
    pub allowed_kinds: Vec<ActionKind>,
    /// Standardized denominations (lamports) the agent accepts.
    pub denominations: Vec<u64>,
    /// Cap on how many proposals the agent will inject per round.
    pub max_proposals_per_round: u32,
}

/// One SOL in lamports.
pub const SOL: u64 = 1_000_000_000;

impl Policy {
    /// The policy admits the action: its kind is allowed and its amount is a
    /// standard denomination.
    pub open spec fn spec_accepts(&self, action: Action) -> bool {
        self.allowed_kinds@.contains(action.kind) && self.denominations@.contains(action.amount)
    }

    /// Whether the agent will participate in a round performing `action`.
    pub fn accepts(&self, action: &Action) -> (ok: bool)
        ensures
            ok == self.spec_accepts(*action),
    {
        let mut kind_ok = false;
        let mut i: usize = 0;
        while i < self.allowed_kinds.len()
            invariant
                i <= self.allowed_kinds@.len(),
                kind_ok == exists|j: int| 0 <= j < i && self.allowed_kinds@[j] == action.kind,
            decreases self.allowed_kinds@.len() - i,
        {
            if self.allowed_kinds[i] == action.kind {
                kind_ok = true;
            }
            i = i + 1;
        }
        if !kind_ok {
            return false;
        }
        let mut k: usize = 0;
        while k < self.denominations.len()
            invariant
                k <= self.denominations@.len(),
                kind_ok,
                self.allowed_kinds@.contains(action.kind),
                forall|j: int| 0 <= j < k ==> self.denominations@[j] != action.amount,
            decreases self.denominations@.len() - k,
        {
            if self.denominations[k] == action.amount {
                return true;
            }
            k = k + 1;
        }
        false
    }
}

impl Default for Policy {
    /// A conservative starter policy: stake/unstake at 1 / 10 / 100 SOL.
    fn default() -> (p: Self)
        ensures
            p.allowed_kinds@ == seq![ActionKind::Stake, ActionKind::Unstake],
            p.denominations@ == seq![SOL, 10_000_000_000u64, 100_000_000_000u64],
            p.max_proposals_per_round == 1,
    {
        let mut allowed_kinds: Vec<ActionKind> = Vec::new();
        allowed_kinds.push(ActionKind::Stake);
        allowed_kinds.push(ActionKind::Unstake);
        let mut denominations: Vec<u64> = Vec::new();
        denominations.push(SOL);
        denominations.push(10 * SOL);
        denominations.push(100 * SOL);
        let p = Policy { allowed_kinds, denominations, max_proposals_per_round: 1 };
        proof {
            assert(p.allowed_kinds@ =~= seq![ActionKind::Stake, ActionKind::Unstake]);
            assert(p.denominations@ =~= seq![SOL, 10_000_000_000u64, 100_000_000_000u64]);
        }
        p
    }
}

} // verus!
