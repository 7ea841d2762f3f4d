//! Poseidon hashing over BN254 with circomlib-compatible parameters.
//!
//! One hash definition is shared by commitments, nullifiers and the Merkle
//! tree, so that the in-circuit gadget and the on-chain syscall can
//! reproduce every value computed here.
use crate::field::F;
use light_poseidon::{Poseidon, PoseidonBytesHasher};
use vstd::prelude::*;

verus! {

/// Maximum number of inputs supported by the circom Poseidon construction.
pub const MAX_INPUTS: usize = 12;

/// What light-poseidon's circom-parameter Poseidon over BN254 returns for
/// the given inputs, each input and the result as canonical 32-byte
/// little-endian encodings.
pub uninterp spec fn poseidon(inputs: Seq<Seq<u8>>) -> Seq<u8>;

/// Two-input Poseidon on encodings.
pub open spec fn poseidon2(a: Seq<u8>, b: Seq<u8>) -> Seq<u8> {
    poseidon(seq![a, b])
}

/// Two-input Poseidon as a hash function value, for the Merkle mathematics.
pub open spec fn poseidon_hasher() -> spec_fn(Seq<u8>, Seq<u8>) -> Seq<u8> {
    |a: Seq<u8>, b: Seq<u8>| poseidon2(a, b)
}

/// The encodings of a list of field elements.
pub open spec fn views(xs: Seq<F>) -> Seq<Seq<u8>> {
    xs.map_values(|x: F| x@)
}

/// Calls `Poseidon::<Fr>::new_circom(n)` and `hash_bytes_le` of
/// light-poseidon on the little-endian encodings of the inputs. The contract
/// claims only that the result is the library's Poseidon of the inputs
/// (`poseidon`). Every `F` is canonical (its type invariant), and the arity
/// is within `1..=12`, so neither the constructor nor the hash returns an
/// error on the inputs admitted here.
#[verifier::external_body]
fn circom_poseidon(inputs: &[F]) -> (r: F)
    requires
        1 <= inputs@.len() <= MAX_INPUTS,
    ensures
        r@ == poseidon(views(inputs@)),
{
    let slices: Vec<&[u8]> = inputs.iter().map(|x| x.bytes.as_slice()).collect();
    let mut hasher = Poseidon::<ark_bn254::Fr>::new_circom(slices.len()).unwrap();
    F { bytes: hasher.hash_bytes_le(&slices).unwrap() }
}

/// Poseidon hash of a list of 1..=12 field elements.
pub fn hash(inputs: &[F]) -> (r: F)
    requires
        1 <= inputs@.len() <= MAX_INPUTS,
    ensures
        r@ == poseidon(views(inputs@)),
{
    circom_poseidon(inputs)
}

/// Two-input Poseidon, the workhorse for commitments, nullifiers, and Merkle
/// inner nodes.
pub fn hash2(a: F, b: F) -> (r: F)
    ensures
        r@ == poseidon2(a@, b@),
{
    let pair = [a, b];
    let r = hash(pair.as_slice());
    proof {
        assert(views(pair@) =~= seq![a@, b@]);
    }
    r
}

} // verus!
