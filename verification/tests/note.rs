use ark_bn254::Fr;
use ark_ff::{BigInteger, PrimeField};
use ark_std::UniformRand;
use mirror_pool::field::{from_bytes_le, from_u64, F};
use mirror_pool::note::Note;

fn random_field(rng: &mut impl ark_std::rand::Rng) -> F {
    let bytes: [u8; 32] = Fr::rand(rng).into_bigint().to_bytes_le().try_into().unwrap();
    from_bytes_le(&bytes).unwrap()
}

#[test]
fn commitment_is_stable() {
    let note = Note::new(from_u64(42), from_u64(7));
    assert_eq!(note.commitment(), note.commitment());
}

#[test]
fn distinct_notes_have_distinct_commitments() {
    let mut rng = ark_std::test_rng();
    let a = Note::new(random_field(&mut rng), random_field(&mut rng));
    let b = Note::new(random_field(&mut rng), random_field(&mut rng));
    assert_ne!(a, b);
    assert_ne!(a.commitment(), b.commitment());
}

#[test]
fn nullifier_is_per_round_and_uncorrelated() {
    let note = Note::new(from_u64(123), from_u64(456));
    let nf0 = note.nullifier(from_u64(0));
    let nf1 = note.nullifier(from_u64(1));
    // Different rounds -> different nullifiers (unlinkable across rounds).
    assert_ne!(nf0, nf1);
    // Same round -> reproducible (so the program can detect a double-propose).
    assert_eq!(nf1, note.nullifier(from_u64(1)));
}

#[test]
fn nullifier_depends_on_k_not_r() {
    let a = Note::new(from_u64(9), from_u64(1));
    let b = Note::new(from_u64(9), from_u64(2));
    assert_eq!(a.nullifier(from_u64(5)), b.nullifier(from_u64(5)));
    // ...but their commitments still differ (r differs).
    assert_ne!(a.commitment(), b.commitment());
}

#[test]
fn commitment_is_the_pair_hash_of_the_secrets() {
    let note = Note::new(from_u64(3), from_u64(4));
    assert_eq!(note.commitment(), mirror_pool::poseidon::hash2(from_u64(3), from_u64(4)));
    assert_eq!(note.nullifier(from_u64(8)), mirror_pool::poseidon::hash2(from_u64(3), from_u64(8)));
}
