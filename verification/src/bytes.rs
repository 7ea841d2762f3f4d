//! Fixed-width integer <-> byte-string conversions used by the wire formats.
use crate::field::{be_value, le_value, pow256, lemma_le_value_bound};
use vstd::prelude::*;

verus! {

/// The 8 bytes of `n`, most significant first.
pub fn u64_to_be_bytes(n: u64) -> (r: [u8; 8])
    ensures
        be_value(r@) == n,
        r@.len() == 8,
{
    let mut out = [0u8; 8];
    let mut rem: u64 = n;
    let mut i: usize = 8;
    proof {
        assert(out@.subrange(8, 8) =~= Seq::<u8>::empty());
        assert(be_value(Seq::<u8>::empty()) == 0);
        assert(pow256(0) == 1);
        assert(be_value(out@.subrange(i as int, 8)) == 0);
        assert(pow256((8 - i) as nat) == 1);
    }
    while i > 0
        invariant
            i <= 8,
            out@.len() == 8,
            n == be_value(out@.subrange(i as int, 8)) + pow256((8 - i) as nat) * rem,
            forall|j: int| 0 <= j < i ==> out@[j] == 0,
        decreases i,
    {
        i = i - 1;
        let b = (rem % 256) as u8;
        let ghost old_out = out@;
        let ghost old_rem = rem;
        out[i] = b;
        rem = rem / 256;
        proof {
            let p = pow256((7 - i) as nat);
            assert(pow256((8 - i) as nat) == 256 * p);
            assert(out@.subrange(i as int, 8)[0] == b);
            be_value_prepend(out@.subrange(i as int, 8), b, (7 - i) as nat);
            assert(out@.subrange(i as int + 1, 8) =~= old_out.subrange(i as int + 1, 8));
            assert(out@.subrange(i as int, 8).subrange(1, 8 - i as int) =~= out@.subrange(
                i as int + 1,
                8,
            ));
            assert(p * old_rem == (b as nat) * p + (256 * p) * rem) by (nonlinear_arith)
                requires
                    old_rem == 256 * rem + b,
            ;
        }
    }
    proof {
        assert(out@.subrange(0, 8) =~= out@);
        assert(rem == 0) by {
            assert(pow256(8) == 18446744073709551616nat) by {
                reveal_with_fuel(pow256, 9);
            }
            assert(rem == 0) by (nonlinear_arith)
                requires
                    n == be_value(out@) + 18446744073709551616nat * rem,
                    n < 18446744073709551616nat,
                    be_value(out@) >= 0,
            ;
        }
    }
    out
}

/// Reading a string big-endian: the first byte weighs `256^(len-1)`.
pub proof fn be_value_prepend(s: Seq<u8>, b: u8, k: nat)
    requires
        s.len() == k + 1,
        s[0] == b,
    ensures
        be_value(s) == (b as nat) * pow256(k) + be_value(s.subrange(1, s.len() as int)),
    decreases k,
{
    if k == 0 {
        assert(s.drop_last() =~= Seq::<u8>::empty());
        assert(s.subrange(1, 1) =~= Seq::<u8>::empty());
        assert(be_value(Seq::<u8>::empty()) == 0);
        assert(pow256(0) == 1);
    } else {
        let t = s.drop_last();
        be_value_prepend(t, b, (k - 1) as nat);
        assert(t.subrange(1, t.len() as int) =~= s.subrange(1, s.len() as int).drop_last());
        let p = pow256((k - 1) as nat);
        assert(pow256(k) == 256 * p);
        assert(s.subrange(1, s.len() as int).last() == s.last());
        let rest = be_value(t.subrange(1, t.len() as int));
        assert(((b as nat) * p + rest) * 256 + (s.last() as nat) == (b as nat) * (256 * p) + (rest
            * 256 + (s.last() as nat))) by (nonlinear_arith);
    }
}

/// The 8 bytes of `n`, least significant first.
pub fn u64_to_le_bytes(n: u64) -> (r: [u8; 8])
    ensures
        le_value(r@) == n,
        r@.len() == 8,
{
    let mut out = [0u8; 8];
    let mut rem: u64 = n;
    let mut i: usize = 0;
    proof {
        assert(out@.take(0) =~= Seq::<u8>::empty());
        assert(le_value(out@.take(0)) == 0);
        assert(pow256(0) == 1);
    }
    while i < 8
        invariant
            i <= 8,
            out@.len() == 8,
            n == le_value(out@.take(i as int)) + pow256(i as nat) * rem,
        decreases 8 - i,
    {
        let b = (rem % 256) as u8;
        let ghost old_out = out@;
        let ghost old_rem = rem;
        out[i] = b;
        rem = rem / 256;
        proof {
            assert(out@.take(i + 1).drop_last() =~= old_out.take(i as int));
            assert(out@.take(i + 1).last() == b);
            let p = pow256(i as nat);
            assert(p * old_rem == p * (b as nat) + (256 * p) * rem) by (nonlinear_arith)
                requires
                    old_rem == 256 * rem + b,
            ;
        }
        i = i + 1;
    }
    proof {
        assert(out@.take(8) =~= out@);
        assert(pow256(8) == 18446744073709551616nat) by {
            reveal_with_fuel(pow256, 9);
        }
        assert(rem == 0) by (nonlinear_arith)
            requires
                n == le_value(out@) + 18446744073709551616nat * rem,
                n < 18446744073709551616nat,
                le_value(out@) >= 0,
        ;
    }
    out
}

/// The `u64` stored big-endian in `bytes[start..start + 8]`.
pub fn be_u64_at(bytes: &[u8; 32], start: usize) -> (r: u64)
    requires
        start + 8 <= 32,
    ensures
        r == be_value(bytes@.subrange(start as int, start + 8)),
{
    let mut acc: u64 = 0;
    let mut i: usize = 0;
    proof {
        assert(bytes@.subrange(start as int, start as int) =~= Seq::<u8>::empty());
        assert(be_value(Seq::<u8>::empty()) == 0);
    }
    while i < 8
        invariant
            i <= 8,
            start + 8 <= 32,
            bytes@.len() == 32,
            acc == be_value(bytes@.subrange(start as int, start + i)),
            acc < pow256(i as nat),
        decreases 8 - i,
    {
        let b = bytes[start + i];
        proof {
            let s = bytes@.subrange(start as int, start + i + 1);
            assert(s.drop_last() =~= bytes@.subrange(start as int, start + i));
            assert(s.last() == b);
            assert(pow256((i + 1) as nat) == 256 * pow256(i as nat));
            assert(pow256(8) == 18446744073709551616nat) by {
                reveal_with_fuel(pow256, 9);
            }
            assert(pow256((i + 1) as nat) <= pow256(8)) by {
                lemma_pow256_mono((i + 1) as nat, 8);
            }
            assert(acc * 256 + (b as nat) < 256 * pow256(i as nat)) by (nonlinear_arith)
                requires
                    acc < pow256(i as nat),
                    b < 256,
            ;
        }
        acc = acc * 256 + b as u64;
        i = i + 1;
    }
    acc
}

/// `256^a <= 256^b` when `a <= b`.
pub proof fn lemma_pow256_mono(a: nat, b: nat)
    requires
        a <= b,
    ensures
        pow256(a) <= pow256(b),
    decreases b,
{
    if a < b {
        lemma_pow256_mono(a, (b - 1) as nat);
    }
}

/// Reading a string big-endian is reading its reverse little-endian.
pub proof fn lemma_be_is_reversed_le(s: Seq<u8>)
    ensures
        be_value(s) == le_value(s.reverse()),
    decreases s.len(),
{
    if s.len() > 0 {
        let b = s[0];
        be_value_prepend(s, b, (s.len() - 1) as nat);
        let t = s.subrange(1, s.len() as int);
        lemma_be_is_reversed_le(t);
        assert(s.reverse().drop_last() =~= t.reverse());
        assert(s.reverse().last() == b);
        let p = pow256((s.len() - 1) as nat);
        assert((b as nat) * p == p * (b as nat)) by (nonlinear_arith);
    } else {
        assert(s.reverse() =~= s);
    }
}

/// Equal-length strings with equal little-endian values are equal.
pub proof fn lemma_le_value_injective(a: Seq<u8>, b: Seq<u8>)
    requires
        a.len() == b.len(),
        le_value(a) == le_value(b),
    ensures
        a == b,
    decreases a.len(),
{
    if a.len() > 0 {
        if a.last() != b.last() {
            let k = a.len() - 1;
            if a.last() < b.last() {
                crate::field::lemma_le_value_compare(a, b, k);
            } else {
                crate::field::lemma_le_value_compare(b, a, k);
            }
        } else {
            lemma_le_value_injective(a.drop_last(), b.drop_last());
            assert(a =~= a.drop_last().push(a.last()));
            assert(b =~= b.drop_last().push(b.last()));
        }
    } else {
        assert(a =~= b);
    }
}

/// The `len` least significant base-256 digits of `n`, least significant
/// first.
pub open spec fn le_bytes(n: nat, len: nat) -> Seq<u8>
    decreases len,
{
    if len == 0 {
        Seq::<u8>::empty()
    } else {
        seq![(n % 256) as u8] + le_bytes(n / 256, (len - 1) as nat)
    }
}

/// Reading little-endian, a byte in front counts once and shifts the rest up.
#[verifier::spinoff_prover]
pub proof fn lemma_le_value_prepend(b: u8, t: Seq<u8>)
    ensures
        le_value(seq![b] + t) == (b as nat) + 256 * le_value(t),
    decreases t.len(),
{
    let s = seq![b] + t;
    if t.len() == 0 {
        assert(s.drop_last() =~= Seq::<u8>::empty());
        assert(le_value(Seq::<u8>::empty()) == 0);
        assert(pow256(0) == 1);
        assert(s.last() == b);
        assert(t =~= Seq::<u8>::empty());
    } else {
        let u = t.drop_last();
        assert(s.last() == t.last());
        assert(s.len() - 1 == t.len());
        lemma_le_value_prepend(b, u);
        assert(s.drop_last() =~= seq![b] + u);
        let p = pow256((t.len() - 1) as nat);
        assert(pow256(t.len()) == 256 * p);
        let x = t.last() as nat;
        assert(le_value(s.drop_last()) == (b as nat) + 256 * le_value(u));
        assert(le_value(s) == le_value(s.drop_last()) + pow256(t.len()) * x);
        assert(le_value(t) == le_value(u) + p * x);
        assert(256 * (le_value(u) + p * x) == 256 * le_value(u) + (256 * p) * x) by (nonlinear_arith);
        assert(le_value(s) == (b as nat) + 256 * le_value(u) + (256 * p) * x);
    }
}

/// `le_bytes(n, len)` has `len` bytes and denotes `n` when `n < 256^len`.
pub proof fn lemma_le_bytes_value(n: nat, len: nat)
    requires
        n < pow256(len),
    ensures
        le_bytes(n, len).len() == len,
        le_value(le_bytes(n, len)) == n,
    decreases len,
{
    if len > 0 {
        let q = n / 256;
        assert(q < pow256((len - 1) as nat)) by {
            assert(pow256(len) == 256 * pow256((len - 1) as nat));
        }
        lemma_le_bytes_value(q, (len - 1) as nat);
        lemma_le_value_prepend((n % 256) as u8, le_bytes(q, (len - 1) as nat));
    } else {
        assert(pow256(0) == 1);
    }
}

/// `le_bytes(n, len)` has `len` bytes.
pub proof fn lemma_le_bytes_value_len(n: nat, len: nat)
    ensures
        le_bytes(n, len).len() == len,
    decreases len,
{
    if len > 0 {
        lemma_le_bytes_value_len(n / 256, (len - 1) as nat);
    }
}

/// A byte string is the digit string of its own value.
pub proof fn lemma_le_bytes_unique(s: Seq<u8>)
    ensures
        s == le_bytes(le_value(s), s.len()),
{
    lemma_le_value_bound(s);
    lemma_le_bytes_value(le_value(s), s.len());
    lemma_le_value_injective(s, le_bytes(le_value(s), s.len()));
}

/// The 32-byte big-endian field-element encoding of a number.
pub open spec fn be32(n: nat) -> Seq<u8> {
    le_bytes(n, 32).reverse()
}

/// A 32-byte string whose big-endian value is `n` is `be32(n)`.
pub proof fn lemma_be32_unique(s: Seq<u8>, n: nat)
    requires
        s.len() == 32,
        be_value(s) == n,
    ensures
        s == be32(n),
{
    lemma_be_is_reversed_le(s);
    lemma_le_bytes_unique(s.reverse());
    assert(s.reverse().reverse() =~= s);
}

/// A 32-byte string whose little-endian value is `n` is the reverse of
/// `be32(n)`.
pub proof fn lemma_le32_unique(s: Seq<u8>, n: nat)
    requires
        s.len() == 32,
        le_value(s) == n,
    ensures
        s.reverse() == be32(n),
{
    lemma_le_bytes_unique(s);
}

/// An all-zero string reads as zero.
pub proof fn lemma_be_value_zero(s: Seq<u8>)
    requires
        forall|j: int| 0 <= j < s.len() ==> s[j] == 0,
    ensures
        be_value(s) == 0,
    decreases s.len(),
{
    if s.len() > 0 {
        lemma_be_value_zero(s.drop_last());
    }
}

/// Leading zero bytes add nothing to a big-endian value.
pub proof fn lemma_be_value_leading_zeros(s: Seq<u8>, k: int)
    requires
        0 <= k <= s.len(),
        forall|j: int| 0 <= j < k ==> s[j] == 0,
    ensures
        be_value(s) == be_value(s.subrange(k, s.len() as int)),
    decreases s.len(),
{
    if s.len() > k {
        lemma_be_value_leading_zeros(s.drop_last(), k);
        assert(s.subrange(k, s.len() as int).drop_last() =~= s.drop_last().subrange(
            k,
            s.len() - 1,
        ));
    } else {
        assert(s.subrange(k, s.len() as int) =~= Seq::<u8>::empty());
        lemma_be_value_zero(s);
    }
}

} // verus!
