use ark_bn254::Fr;
use ark_ff::{BigInteger, PrimeField};
use ark_std::UniformRand;
use mirror_pool::field::{from_bytes_be, from_bytes_le, from_u64, to_bytes_be, to_bytes_le, F, FIELD_BYTES};

/// A field element of this crate with the same value as an arkworks scalar.
fn from_ark(x: Fr) -> F {
    let bytes: [u8; 32] = x.into_bigint().to_bytes_le().try_into().unwrap();
    from_bytes_le(&bytes).unwrap()
}

#[test]
fn le_roundtrips() {
    let mut rng = ark_std::test_rng();
    for _ in 0..1000 {
        let x = from_ark(Fr::rand(&mut rng));
        assert_eq!(from_bytes_le(&to_bytes_le(&x)), Some(x));
    }
}

#[test]
fn be_roundtrips() {
    let mut rng = ark_std::test_rng();
    for _ in 0..1000 {
        let x = from_ark(Fr::rand(&mut rng));
        assert_eq!(from_bytes_be(&to_bytes_be(&x)), Some(x));
    }
}

#[test]
fn le_and_be_are_byte_reverses() {
    let x = from_u64(0x0102_0304_0506_0708);
    let mut le = to_bytes_le(&x);
    let be = to_bytes_be(&x);
    le.reverse();
    assert_eq!(le, be);
}

#[test]
fn all_ones_is_non_canonical() {
    // 0xFF..FF exceeds the BN254 scalar modulus, so it must be rejected.
    assert_eq!(from_bytes_le(&[0xFF; FIELD_BYTES]), None);
}

#[test]
fn from_u64_is_little_endian_value() {
    let x = from_u64(0x0102_0304_0506_0708);
    let mut expected = [0u8; 32];
    expected[..8].copy_from_slice(&[8, 7, 6, 5, 4, 3, 2, 1]);
    assert_eq!(to_bytes_le(&x), expected);
}

#[test]
fn modulus_is_rejected_and_its_predecessor_accepted() {
    let mut m: [u8; 32] = Fr::MODULUS.to_bytes_le().try_into().unwrap();
    assert_eq!(from_bytes_le(&m), None);
    m[0] -= 1;
    let x = from_bytes_le(&m).unwrap();
    assert_eq!(to_bytes_le(&x), m);
    let mut be = m;
    be.reverse();
    assert_eq!(from_bytes_be(&be), Some(x));
}
