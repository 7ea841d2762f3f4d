use mirror_pool::policy::{Action, ActionKind, Policy, SOL};

#[test]
fn action_encoding_roundtrips() {
    for kind in [ActionKind::Stake, ActionKind::Unstake] {
        let a = Action {
            kind,
            amount: 100 * SOL,
        };
        assert_eq!(Action::from_field_bytes(&a.to_field_bytes()), Some(a));
    }
}

#[test]
fn default_policy_accepts_standard_actions() {
    let p = Policy::default();
    assert!(p.accepts(&Action {
        kind: ActionKind::Unstake,
        amount: 10 * SOL
    }));
    assert!(p.accepts(&Action {
        kind: ActionKind::Stake,
        amount: SOL
    }));
}

#[test]
fn rejects_non_denomination_amounts() {
    let p = Policy::default();
    // 7.5 SOL is not a standardized denomination.
    assert!(!p.accepts(&Action {
        kind: ActionKind::Stake,
        amount: 7_500_000_000
    }));
}

#[test]
fn rejects_disallowed_kind() {
    let p = Policy {
        allowed_kinds: vec![ActionKind::Stake],
        denominations: vec![SOL],
        max_proposals_per_round: 1,
    };
    assert!(!p.accepts(&Action {
        kind: ActionKind::Unstake,
        amount: SOL
    }));
}

#[test]
fn non_canonical_encoding_is_rejected() {
    let mut bytes = Action {
        kind: ActionKind::Stake,
        amount: SOL,
    }
    .to_field_bytes();
    bytes[0] = 1; // stray high byte
    assert!(Action::from_field_bytes(&bytes).is_none());
}

#[test]
fn action_encoding_has_the_documented_layout() {
    let bytes = Action {
        kind: ActionKind::Unstake,
        amount: 0x0102_0304_0506_0708,
    }
    .to_field_bytes();
    let mut expected = [0u8; 32];
    expected[23] = 1;
    expected[24..32].copy_from_slice(&[1, 2, 3, 4, 5, 6, 7, 8]);
    assert_eq!(bytes, expected);
}

#[test]
fn unknown_kind_byte_is_rejected() {
    let mut bytes = [0u8; 32];
    bytes[23] = 2;
    assert!(Action::from_field_bytes(&bytes).is_none());
}

#[test]
fn default_policy_is_the_documented_envelope() {
    let p = Policy::default();
    assert_eq!(p.allowed_kinds, vec![ActionKind::Stake, ActionKind::Unstake]);
    assert_eq!(p.denominations, vec![SOL, 10 * SOL, 100 * SOL]);
    assert_eq!(p.max_proposals_per_round, 1);
}
