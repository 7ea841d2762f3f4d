//! The byte layout the on-chain Groth16 verifier consumes.
//!
//! The verifier takes curve points as big-endian byte arrays, expects
//! `proof_a` negated, and orders G2 coordinates opposite to the
//! little-endian serialization. Reordering the serialized bytes is done here;
//! checking a proof against a verifying key is done by `groth16-solana`.
use groth16_solana::groth16::{Groth16Verifier, Groth16Verifyingkey};
use vstd::prelude::*;

verus! {

/// Each `n`-byte block of `s` reversed in place (the last block may be
/// shorter).
pub open spec fn reversed_blocks(s: Seq<u8>, n: nat) -> Seq<u8>
    decreases s.len(),
{
    if n == 0 || s.len() <= n {
        s.reverse()
    } else {
        s.take(n as int).reverse() + reversed_blocks(s.skip(n as int), n)
    }
}

/// Reverse each `N`-byte block (little-endian limb -> big-endian, and for
/// `N = 64` this also swaps the two coefficients of a G2 coordinate).
pub fn reverse_blocks<const N: usize>(bytes: &[u8]) -> (out: Vec<u8>)
    requires
        N > 0,
    ensures
        out@ == reversed_blocks(bytes@, N as nat),
{
    let mut out: Vec<u8> = Vec::new();
    let mut start: usize = 0;
    let len = bytes.len();
    proof {
        assert(bytes@.skip(0) =~= bytes@);
        assert(out@ + reversed_blocks(bytes@, N as nat) =~= reversed_blocks(bytes@, N as nat));
    }
    while start < len
        invariant
            N > 0,
            len == bytes@.len(),
            start <= len,
            out@ + reversed_blocks(bytes@.skip(start as int), N as nat) == reversed_blocks(
                bytes@,
                N as nat,
            ),
        decreases len - start,
    {
        let end = if len - start > N {
            start + N
        } else {
            len
        };
        let ghost rest = bytes@.skip(start as int);
        let ghost before = out@;
        let mut j = end;
        while j > start
            invariant
                start <= j <= end,
                end <= len,
                len == bytes@.len(),
                out@ == before + bytes@.subrange(j as int, end as int).reverse(),
            decreases j - start,
        {
            j = j - 1;
            out.push(bytes[j]);
            proof {
                assert(bytes@.subrange(j as int, end as int).reverse() =~= bytes@.subrange(
                    j + 1,
                    end as int,
                ).reverse().push(bytes@[j as int]));
            }
        }
        proof {
            assert(rest.take((end - start) as int) =~= bytes@.subrange(start as int, end as int));
            if end == len {
                assert(rest =~= bytes@.subrange(start as int, end as int));
                assert(bytes@.skip(end as int) =~= Seq::<u8>::empty());
                assert(reversed_blocks(Seq::<u8>::empty(), N as nat) =~= Seq::<u8>::empty());
            } else {
                assert(rest.skip(N as int) =~= bytes@.skip(end as int));
            }
            assert(out@ + reversed_blocks(bytes@.skip(end as int), N as nat) =~= before
                + reversed_blocks(rest, N as nat));
        }
        start = end;
    }
    proof {
        assert(bytes@.skip(start as int) =~= Seq::<u8>::empty());
        assert(out@ =~= out@ + Seq::<u8>::empty());
    }
    out
}

/// A proof in the on-chain verifier's byte form: `a` is already negated.
pub struct ProofBytes {
    pub a: [u8; 64],
    pub b: [u8; 128],
    pub c: [u8; 64],
}

/// A verifying key in the on-chain verifier's byte form.
pub struct VkBytes {
    pub alpha: [u8; 64],
    pub beta: [u8; 128],
    pub gamma: [u8; 128],
    pub delta: [u8; 128],
    /// One point per public input, plus one.
    pub ic: Vec<[u8; 64]>,
}

/// The encodings of a list of 32-byte public inputs.
pub open spec fn input_views(inputs: Seq<[u8; 32]>) -> Seq<Seq<u8>> {
    inputs.map_values(|x: [u8; 32]| x@)
}

/// The encodings of a list of G1 points.
pub open spec fn g1_views(points: Seq<[u8; 64]>) -> Seq<Seq<u8>> {
    points.map_values(|p: [u8; 64]| p@)
}

/// Whether `groth16-solana`'s verifier (`Groth16Verifier::<4>::new` followed
/// by `verify`) accepts the proof `(a, b, c)` for the public inputs under the
/// verifying key `(alpha, beta, gamma, delta, ic)`.
pub uninterp spec fn groth16_accepts(
    a: Seq<u8>,
    b: Seq<u8>,
    c: Seq<u8>,
    inputs: Seq<Seq<u8>>,
    alpha: Seq<u8>,
    beta: Seq<u8>,
    gamma: Seq<u8>,
    delta: Seq<u8>,
    ic: Seq<Seq<u8>>,
) -> bool;

/// Calls `Groth16Verifier::<4>::new` and `verify` of `groth16-solana` (a
/// pairing check that depends on its arguments alone). The contract claims
/// only that the answer is `groth16_accepts` of the arguments; either
/// constructor or verification error counts as a rejection.
#[verifier::external_body]
pub(crate) fn groth16_verify(
    a: &[u8; 64],
    b: &[u8; 128],
    c: &[u8; 64],
    inputs: &[[u8; 32]; 4],
    vk: &VkBytes,
) -> (ok: bool)
    ensures
        ok == groth16_accepts(
            a@,
            b@,
            c@,
            input_views(inputs@),
            vk.alpha@,
            vk.beta@,
            vk.gamma@,
            vk.delta@,
            g1_views(vk.ic@),
        ),
{
    let key = Groth16Verifyingkey {
        nr_pubinputs: vk.ic.len(),
        vk_alpha_g1: vk.alpha,
        vk_beta_g2: vk.beta,
        vk_gamma_g2: vk.gamma,
        vk_delta_g2: vk.delta,
        vk_ic: vk.ic.as_slice(),
        vk_commitment: None,
    };
    match Groth16Verifier::<4>::new(a, b, c, inputs, &key) {
        Ok(mut verifier) => verifier.verify().is_ok(),
        Err(_) => false,
    }
}

} // verus!
