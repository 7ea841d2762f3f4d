use mirror_pool::proposal::ProposalArgs;
use mirror_pool::relayer::{nullifier_pda, pool_pda, propose_discriminator, propose_instruction, round_pda};
use solana_pubkey::Pubkey;

fn sample_args() -> ProposalArgs {
    ProposalArgs {
        round_id: 7,
        root: [1u8; 32],
        nullifier: [2u8; 32],
        action: [3u8; 32],
        proof_a: [4u8; 64],
        proof_b: [5u8; 128],
        proof_c: [6u8; 64],
    }
}

#[test]
fn accounts_are_the_expected_pdas() {
    let program_id = Pubkey::new_unique().to_bytes();
    let payer = Pubkey::new_unique().to_bytes();
    let p = sample_args();
    let ix = propose_instruction(&program_id, &payer, &p).unwrap();

    assert_eq!(Some(ix.accounts[0].pubkey), pool_pda(&program_id));
    assert_eq!(Some(ix.accounts[1].pubkey), round_pda(&program_id, p.round_id));
    assert_eq!(Some(ix.accounts[2].pubkey), nullifier_pda(&program_id, p.round_id, &p.nullifier));
    assert_eq!(ix.accounts[3].pubkey, payer);
    assert!(ix.accounts[3].is_signer);
}

#[test]
fn discriminator_is_the_anchor_propose_discriminator() {
    // sha256("global:propose")[..8]
    assert_eq!(propose_discriminator(), [93, 253, 82, 168, 118, 33, 102, 90]);
}

#[test]
fn instruction_data_is_the_documented_layout() {
    let p = sample_args();
    let ix = propose_instruction(&[9u8; 32], &[8u8; 32], &p).unwrap();
    let mut expected = Vec::new();
    expected.extend_from_slice(&propose_discriminator());
    expected.extend_from_slice(&7u64.to_le_bytes());
    expected.extend_from_slice(&[2u8; 32]);
    expected.extend_from_slice(&[3u8; 32]);
    expected.extend_from_slice(&[1u8; 32]);
    expected.extend_from_slice(&[4u8; 64]);
    expected.extend_from_slice(&[5u8; 128]);
    expected.extend_from_slice(&[6u8; 64]);
    assert_eq!(ix.data.len(), 8 + 360);
    assert_eq!(ix.data, expected);
    assert_eq!(ix.program_id, [9u8; 32]);
}

#[test]
fn pdas_are_solana_program_addresses() {
    let id = Pubkey::new_unique();
    let program_id = id.to_bytes();
    assert_eq!(pool_pda(&program_id), Some(Pubkey::find_program_address(&[b"pool"], &id).0.to_bytes()));
    assert_eq!(
        round_pda(&program_id, 5),
        Some(Pubkey::find_program_address(&[b"round", &5u64.to_le_bytes()], &id).0.to_bytes())
    );
    assert_eq!(
        nullifier_pda(&program_id, 5, &[7u8; 32]),
        Some(
            Pubkey::find_program_address(&[b"nullifier", &5u64.to_le_bytes(), &[7u8; 32]], &id)
                .0
                .to_bytes()
        )
    );
    assert_ne!(round_pda(&program_id, 5), round_pda(&program_id, 6));
}

#[test]
fn account_flags_and_system_program() {
    let ix = propose_instruction(&[9u8; 32], &[8u8; 32], &sample_args()).unwrap();
    assert_eq!(ix.accounts.len(), 5);
    assert!(!ix.accounts[0].is_signer && !ix.accounts[0].is_writable);
    assert!(!ix.accounts[1].is_signer && ix.accounts[1].is_writable);
    assert!(!ix.accounts[2].is_signer && ix.accounts[2].is_writable);
    assert!(ix.accounts[3].is_writable);
    assert_eq!(ix.accounts[4].pubkey, [0u8; 32]);
    assert!(!ix.accounts[4].is_signer && !ix.accounts[4].is_writable);
}
