use mirror_pool::field::{from_u64, to_bytes_le};
use mirror_pool::keystore::{Keystore, KeystoreError};
use mirror_pool::note::Note;

#[test]
fn note_roundtrips_through_keystore() {
    let note = Note::new(from_u64(123_456), from_u64(789));
    let recovered = Keystore::from_note(&note).to_note().unwrap();
    assert_eq!(note, recovered);
    assert_eq!(note.commitment(), recovered.commitment());
}

fn hex_of(bytes: &[u8]) -> String {
    bytes.iter().map(|b| format!("{b:02x}")).collect()
}

#[test]
fn rejects_bad_hex_length() {
    let ks = Keystore {
        k: "abcd".to_string(),
        r: hex_of(&to_bytes_le(&from_u64(1))),
    };
    assert!(ks.to_note().is_err());
}

#[test]
fn keystore_holds_lowercase_hex_of_little_endian_bytes() {
    let ks = Keystore::from_note(&Note::new(from_u64(0xab), from_u64(1)));
    assert_eq!(ks.k, format!("ab{}", "0".repeat(62)));
    assert_eq!(ks.r, format!("01{}", "0".repeat(62)));
}

#[test]
fn wrong_length_error_reports_the_decoded_length() {
    let ks = Keystore { k: "abcd".to_string(), r: "00".repeat(32) };
    assert_eq!(ks.to_note().unwrap_err(), KeystoreError::WrongLength(2));
}

#[test]
fn invalid_hex_is_rejected() {
    let ks = Keystore { k: "zz".repeat(32), r: "00".repeat(32) };
    assert_eq!(ks.to_note().unwrap_err(), KeystoreError::InvalidHex);
}

#[test]
fn non_canonical_secret_is_rejected() {
    let ks = Keystore { k: "ff".repeat(32), r: "00".repeat(32) };
    assert_eq!(ks.to_note().unwrap_err(), KeystoreError::NonCanonical);
}
