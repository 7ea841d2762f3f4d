use mirror_pool::solana_format::reverse_blocks;

#[test]
fn reverse_blocks_reverses_each_block() {
    let bytes: Vec<u8> = (0u8..8).collect();
    assert_eq!(reverse_blocks::<4>(&bytes), vec![3, 2, 1, 0, 7, 6, 5, 4]);
    assert_eq!(reverse_blocks::<2>(&bytes), vec![1, 0, 3, 2, 5, 4, 7, 6]);
}

#[test]
fn reverse_blocks_reverses_a_short_last_block() {
    let bytes: Vec<u8> = (0u8..5).collect();
    assert_eq!(reverse_blocks::<4>(&bytes), vec![3, 2, 1, 0, 4]);
    assert!(reverse_blocks::<32>(&[]).is_empty());
}
