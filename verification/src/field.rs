//! BN254 scalar-field elements and their byte encodings.
//!
//! A field element is kept as its canonical 32-byte little-endian encoding.
//! The big-endian form (the reverse of the bytes) is what the on-chain
//! verifier and the Poseidon syscall consume.
use vstd::prelude::*;

verus! {

/// Byte width of a canonical field-element encoding.
pub const FIELD_BYTES: usize = 32;

/// The BN254 scalar-field modulus, little-endian.
pub const MODULUS_LE: [u8; 32] = [
    1, 0, 0, 240, 147, 245, 225, 67, 145, 112, 185, 121, 72, 232, 51, 40, 93, 88, 129, 129, 182,
    69, 80, 184, 41, 160, 49, 225, 114, 78, 100, 48,
];

/// `256^n`.
pub open spec fn pow256(n: nat) -> nat
    decreases n,
{
    if n == 0 {
        1
    } else {
        256 * pow256((n - 1) as nat)
    }
}

/// The number a byte string denotes when read little-endian.
pub open spec fn le_value(s: Seq<u8>) -> nat
    decreases s.len(),
{
    if s.len() == 0 {
        0
    } else {
        le_value(s.drop_last()) + pow256((s.len() - 1) as nat) * (s.last() as nat)
    }
}

/// The number a byte string denotes when read big-endian.
pub open spec fn be_value(s: Seq<u8>) -> nat
    decreases s.len(),
{
    if s.len() == 0 {
        0
    } else {
        be_value(s.drop_last()) * 256 + (s.last() as nat)
    }
}

/// The BN254 scalar-field modulus `r`.
pub open spec fn modulus() -> nat {
    21888242871839275222246405745257275088548364400416034343698204186575808495617nat
}

/// 32 bytes that encode a field element canonically (value below `r`).
pub open spec fn is_canonical_le(s: Seq<u8>) -> bool {
    s.len() == 32 && le_value(s) < modulus()
}

/// The encoding of the field zero (also the empty Merkle leaf).
pub open spec fn zero_bytes() -> Seq<u8> {
    Seq::new(32, |i: int| 0u8)
}

pub proof fn lemma_pow256_pos(n: nat)
    ensures
        pow256(n) > 0,
    decreases n,
{
    if n > 0 {
        lemma_pow256_pos((n - 1) as nat);
    }
}

/// A value read from `n` bytes is below `256^n`.
pub proof fn lemma_le_value_bound(s: Seq<u8>)
    ensures
        le_value(s) < pow256(s.len()),
    decreases s.len(),
{
    if s.len() > 0 {
        let n = (s.len() - 1) as nat;
        lemma_le_value_bound(s.drop_last());
        let p = pow256(n);
        let b = s.last() as int;
        assert(p * b <= p * 255) by (nonlinear_arith)
            requires
                0 <= b <= 255,
                p >= 0,
        ;
    }
}

/// Bytes equal from position `k` on do not change which value is smaller:
/// comparing two equal-length strings from the top, the first differing byte
/// decides.
pub proof fn lemma_le_value_compare(a: Seq<u8>, b: Seq<u8>, k: int)
    requires
        a.len() == b.len(),
        0 <= k < a.len(),
        a[k] < b[k],
        forall|j: int| k < j < a.len() ==> a[j] == b[j],
    ensures
        le_value(a) < le_value(b),
    decreases a.len(),
{
    let n = (a.len() - 1) as nat;
    let p = pow256(n);
    if k == n {
        lemma_le_value_bound(a.drop_last());
        let x = a.last() as int;
        let y = b.last() as int;
        assert(p * x + p <= p * y) by (nonlinear_arith)
            requires
                x < y,
                p >= 0,
        ;
    } else {
        lemma_le_value_compare(a.drop_last(), b.drop_last(), k);
    }
}

/// Only the all-zero string of a given length denotes zero.
pub proof fn lemma_le_value_zero(s: Seq<u8>)
    requires
        le_value(s) == 0,
    ensures
        s =~= Seq::new(s.len(), |i: int| 0u8),
    decreases s.len(),
{
    if s.len() > 0 {
        let n = (s.len() - 1) as nat;
        lemma_pow256_pos(n);
        let p = pow256(n);
        let x = s.last() as int;
        assert(x == 0) by (nonlinear_arith)
            requires
                p > 0,
                x >= 0,
                p * x == 0,
        ;
        lemma_le_value_zero(s.drop_last());
        assert(s =~= s.drop_last().push(s.last()));
    }
}

/// Trailing zero bytes add nothing to the value.
pub proof fn lemma_le_value_zero_tail(s: Seq<u8>, k: int)
    requires
        0 <= k <= s.len(),
        forall|j: int| k <= j < s.len() ==> s[j] == 0,
    ensures
        le_value(s) == le_value(s.take(k)),
    decreases s.len(),
{
    if s.len() > k {
        lemma_le_value_zero_tail(s.drop_last(), k);
        assert(s.drop_last().take(k) =~= s.take(k));
    } else {
        assert(s.take(k) =~= s);
    }
}

/// The byte constant is the modulus.
pub proof fn lemma_modulus_bytes()
    ensures
        MODULUS_LE@.len() == 32,
        le_value(MODULUS_LE@) == modulus(),
{
    let m = MODULUS_LE@;
    broadcast use vstd::array::group_array_axioms;
    assert(m[0] == 1);
    assert(m[1] == 0);
    assert(m[2] == 0);
    assert(m[3] == 240);
    assert(m[4] == 147);
    assert(m[5] == 245);
    assert(m[6] == 225);
    assert(m[7] == 67);
    assert(m[8] == 145);
    assert(m[9] == 112);
    assert(m[10] == 185);
    assert(m[11] == 121);
    assert(m[12] == 72);
    assert(m[13] == 232);
    assert(m[14] == 51);
    assert(m[15] == 40);
    assert(m[16] == 93);
    assert(m[17] == 88);
    assert(m[18] == 129);
    assert(m[19] == 129);
    assert(m[20] == 182);
    assert(m[21] == 69);
    assert(m[22] == 80);
    assert(m[23] == 184);
    assert(m[24] == 41);
    assert(m[25] == 160);
    assert(m[26] == 49);
    assert(m[27] == 225);
    assert(m[28] == 114);
    assert(m[29] == 78);
    assert(m[30] == 100);
    assert(m[31] == 48);
    assert(m.take(0) =~= Seq::<u8>::empty());
    assert(le_value(m.take(0)) == 0);
    assert(pow256(0) == 1);
    assert(m.take(1).drop_last() =~= m.take(0));
    assert(m.take(1).last() == m[0]);
    assert(le_value(m.take(1)) == 1);
    assert(pow256(1) == 256);
    assert(m.take(2).drop_last() =~= m.take(1));
    assert(m.take(2).last() == m[1]);
    assert(le_value(m.take(2)) == 1);
    assert(pow256(2) == 65536);
    assert(m.take(3).drop_last() =~= m.take(2));
    assert(m.take(3).last() == m[2]);
    assert(le_value(m.take(3)) == 1);
    assert(pow256(3) == 16777216);
    assert(m.take(4).drop_last() =~= m.take(3));
    assert(m.take(4).last() == m[3]);
    assert(le_value(m.take(4)) == 4026531841);
    assert(pow256(4) == 4294967296);
    assert(m.take(5).drop_last() =~= m.take(4));
    assert(m.take(5).last() == m[4]);
    assert(le_value(m.take(5)) == 635386724353);
    assert(pow256(5) == 1099511627776);
    assert(m.take(6).drop_last() =~= m.take(5));
    assert(m.take(6).last() == m[5]);
    assert(le_value(m.take(6)) == 270015735529473);
    assert(pow256(6) == 281474976710656);
    assert(m.take(7).drop_last() =~= m.take(6));
    assert(m.take(7).last() == m[6]);
    assert(le_value(m.take(7)) == 63601885495427073);
    assert(pow256(7) == 72057594037927936);
    assert(m.take(8).drop_last() =~= m.take(7));
    assert(m.take(8).last() == m[7]);
    assert(le_value(m.take(8)) == 4891460686036598785nat);
    assert(pow256(8) == 18446744073709551616nat);
    assert(m.take(9).drop_last() =~= m.take(8));
    assert(m.take(9).last() == m[8]);
    assert(le_value(m.take(9)) == 2679669351373921583105nat);
    assert(pow256(9) == 4722366482869645213696nat);
    assert(m.take(10).drop_last() =~= m.take(9));
    assert(m.take(10).last() == m[9]);
    assert(le_value(m.take(10)) == 531584715432774185517057nat);
    assert(pow256(10) == 1208925819614629174706176nat);
    assert(m.take(11).drop_last() =~= m.take(10));
    assert(m.take(11).last() == m[10]);
    assert(le_value(m.take(11)) == 224182861344139171506159617nat);
    assert(pow256(11) == 309485009821345068724781056nat);
    assert(m.take(12).drop_last() =~= m.take(11));
    assert(m.take(12).last() == m[11]);
    assert(le_value(m.take(12)) == 37671869049726892487204667393nat);
    assert(pow256(12) == 79228162514264337593543950336nat);
    assert(m.take(13).drop_last() =~= m.take(12));
    assert(m.take(13).last() == m[12]);
    assert(le_value(m.take(13)) == 5742099570076759199222369091585nat);
    assert(pow256(13) == 20282409603651670423947251286016nat);
    assert(m.take(14).drop_last() =~= m.take(13));
    assert(m.take(14).last() == m[13]);
    assert(le_value(m.take(14)) == 4711261127617264297554984667447297nat);
    assert(pow256(14) == 5192296858534827628530496329220096nat);
    assert(m.take(15).drop_last() =~= m.take(14));
    assert(m.take(15).last() == m[14]);
    assert(le_value(m.take(15)) == 269518400912893473352610297457672193nat);
    assert(pow256(15) == 1329227995784915872903807060280344576nat);
    assert(m.take(16).drop_last() =~= m.take(15));
    assert(m.take(16).last() == m[15]);
    assert(le_value(m.take(16)) == 53438638232309528389504892708671455233nat);
    assert(pow256(16) == 340282366920938463463374607431768211456nat);
    assert(m.take(17).drop_last() =~= m.take(16));
    assert(m.take(17).last() == m[16]);
    assert(le_value(m.take(17)) == 31699698761879586630483343383863115120641nat);
    assert(pow256(17) == 87112285931760246646623899502532662132736nat);
    assert(m.take(18).drop_last() =~= m.take(17));
    assert(m.take(18).last() == m[17]);
    assert(le_value(m.take(18)) == 7697580860756781291533386499606737382801409nat);
    assert(pow256(18) == 22300745198530623141535718272648361505980416nat);
    assert(m.take(19).drop_last() =~= m.take(18));
    assert(m.take(19).last() == m[18]);
    assert(le_value(m.take(19)) == 2884493711471207166549641043671245371654275073nat);
    assert(pow256(19) == 5708990770823839524233143877797980545530986496nat);
    assert(m.take(20).drop_last() =~= m.take(19));
    assert(m.take(20).last() == m[19]);
    assert(le_value(m.take(20)) == 739344303147746505792625201279610735745151533057nat);
    assert(pow256(20) == 1461501637330902918203684832716283019655932542976nat);
    assert(m.take(21).drop_last() =~= m.take(20));
    assert(m.take(21).last() == m[20]);
    assert(le_value(m.take(21)) == 266732642297372077618863264755643120313124874354689nat);
    assert(pow256(21) == 374144419156711147060143317175368453031918731001856nat);
    assert(m.take(22).drop_last() =~= m.take(21));
    assert(m.take(22).last() == m[21]);
    assert(le_value(m.take(22)) == 26082697564110441224768752149856066379515517313482753nat);
    assert(pow256(22) == 95780971304118053647396689196894323976171195136475136nat);
    assert(m.take(23).drop_last() =~= m.take(22));
    assert(m.take(23).last() == m[22]);
    assert(le_value(m.take(23)) == 7688560401893554733016503887901401984473211128231493633nat);
    assert(pow256(23) == 24519928653854221733733552434404946937899825954937634816nat);
    assert(m.take(24).drop_last() =~= m.take(23));
    assert(m.take(24).last() == m[23]);
    assert(le_value(m.take(24)) == 4519355432711070353739990151818411638558041186836756299777nat);
    assert(pow256(24) == 6277101735386680763835789423207666416102355444464034512896nat);
    assert(m.take(25).drop_last() =~= m.take(24));
    assert(m.take(25).last() == m[24]);
    assert(le_value(m.take(25)) == 261880526583564981671007356503332734698754614409862171328513nat);
    assert(pow256(25) == 1606938044258990275541962092341162602522202993782792835301376nat);
    assert(m.take(26).drop_last() =~= m.take(25));
    assert(m.take(26).last() == m[25]);
    assert(le_value(m.take(26)) == 257371967608022009068384942131089349138251233619656715819548673nat);
    assert(pow256(26) == 411376139330301510538742295639337626245683966408394965837152256nat);
    assert(m.take(27).drop_last() =~= m.take(26));
    assert(m.take(27).last() == m[26]);
    assert(le_value(m.take(27)) == 20414802794792796025466757428458633035176765587631010041840009217nat);
    assert(pow256(27) == 105312291668557186697918027683670432318895095400549111254310977536nat);
    assert(m.take(28).drop_last() =~= m.take(27));
    assert(m.take(28).last() == m[27]);
    assert(le_value(m.take(28)) == 23715680428220159803057022986254305904786573230711181042261809954817nat);
    assert(pow256(28) == 26959946667150639794667015087019630673637144422540572481103610249216nat);
    assert(m.take(29).drop_last() =~= m.take(28));
    assert(m.take(29).last() == m[28]);
    assert(le_value(m.take(29)) == 3097149600483393096395096742906492202699421037400336443888073378365441nat);
    assert(pow256(29) == 6901746346790563787434755862277025452451108972170386555162524223799296nat);
    assert(m.take(30).drop_last() =~= m.take(29));
    assert(m.take(30).last() == m[29]);
    assert(le_value(m.take(30)) == 541433364650147368516306054000514477493885920866690487746564962834710529nat);
    assert(pow256(30) == 1766847064778384329583297500742918515827483896875618958121606201292619776nat);
    assert(m.take(31).drop_last() =~= m.take(30));
    assert(m.take(31).last() == m[30]);
    assert(le_value(m.take(31)) == 177226139842488580326846056128292366060242275608428586299907185092096688129nat);
    assert(pow256(31) == 452312848583266388373324160190187140051835877600158453279131187530910662656nat);
    assert(m.take(32).drop_last() =~= m.take(31));
    assert(m.take(32).last() == m[31]);
    assert(le_value(m.take(32)) == 21888242871839275222246405745257275088548364400416034343698204186575808495617nat);
    assert(m.take(32) =~= m);
}

/// Decide whether 32 little-endian bytes encode a value below the modulus,
/// comparing from the most significant byte down.
fn below_modulus(bytes: &[u8; 32]) -> (r: bool)
    ensures
        r == (le_value(bytes@) < modulus()),
{
    proof {
        lemma_modulus_bytes();
    }
    let mut i: usize = 32;
    while i > 0
        invariant
            i <= 32,
            bytes@.len() == 32,
            MODULUS_LE@.len() == 32,
            le_value(MODULUS_LE@) == modulus(),
            forall|j: int| i <= j < 32 ==> bytes@[j] == MODULUS_LE@[j],
        decreases i,
    {
        i = i - 1;
        let b = bytes[i];
        let m = MODULUS_LE[i];
        if b < m {
            proof {
                lemma_le_value_compare(bytes@, MODULUS_LE@, i as int);
            }
            return true;
        }
        if b > m {
            proof {
                lemma_le_value_compare(MODULUS_LE@, bytes@, i as int);
            }
            return false;
        }
    }
    assert(bytes@ =~= MODULUS_LE@);
    false
}

/// A BN254 scalar-field element, held as its canonical 32-byte
/// little-endian encoding.
#[derive(Clone, Copy, Debug)]
pub struct F {
    pub(crate) bytes: [u8; 32],
}

impl View for F {
    type V = Seq<u8>;

    /// The canonical little-endian encoding.
    closed spec fn view(&self) -> Seq<u8> {
        self.bytes@
    }
}

impl F {
    /// Every element is canonically encoded.
    #[verifier::type_invariant]
    pub closed spec fn inv(self) -> bool {
        is_canonical_le(self.bytes@)
    }

    /// The field element as a number in `[0, r)`.
    pub open spec fn value(self) -> nat {
        le_value(self@)
    }

    /// A valid element's encoding is canonical.
    pub proof fn lemma_canonical_view(self)
        requires
            self.inv(),
        ensures
            is_canonical_le(self@),
    {
    }

    /// Two elements are the same exactly when their encodings are.
    pub proof fn lemma_view_eq(a: F, b: F)
        ensures
            (a@ == b@) == (a == b),
    {
        broadcast use vstd::array::group_array_axioms;

        if a@ == b@ {
            assert(a.bytes =~= b.bytes);
        }
    }
}

impl PartialEq for F {
    fn eq(&self, other: &F) -> (r: bool) {
        let mut i: usize = 0;
        while i < 32
            invariant
                i <= 32,
                self.bytes@.len() == 32,
                other.bytes@.len() == 32,
                forall|j: int| 0 <= j < i ==> self.bytes@[j] == other.bytes@[j],
            decreases 32 - i,
        {
            if self.bytes[i] != other.bytes[i] {
                return false;
            }
            i = i + 1;
        }
        assert(self.bytes@ =~= other.bytes@);
        true
    }
}

impl vstd::std_specs::cmp::PartialEqSpecImpl for F {
    open spec fn obeys_eq_spec() -> bool {
        true
    }

    open spec fn eq_spec(&self, other: &F) -> bool {
        self@ == other@
    }
}

impl Eq for F {}

/// Reverse a 32-byte string.
fn reverse32(b: &[u8; 32]) -> (r: [u8; 32])
    ensures
        r@ == b@.reverse(),
{
    let mut out = [0u8; 32];
    let mut i: usize = 0;
    while i < 32
        invariant
            i <= 32,
            out@.len() == 32,
            b@.len() == 32,
            forall|j: int| 0 <= j < i ==> out@[j] == b@[31 - j],
        decreases 32 - i,
    {
        out[i] = b[31 - i];
        i = i + 1;
    }
    assert(out@ =~= b@.reverse());
    out
}

/// Encode a field element as 32 little-endian bytes (the canonical encoding).
pub fn to_bytes_le(x: &F) -> (r: [u8; FIELD_BYTES])
    ensures
        r@ == x@,
{
    x.bytes
}

/// Decode a field element from 32 little-endian bytes; `None` when the
/// encoding is not canonical (its value is not below the modulus).
pub fn from_bytes_le(bytes: &[u8; FIELD_BYTES]) -> (r: Option<F>)
    ensures
        r is Some <==> le_value(bytes@) < modulus(),
        r matches Some(x) ==> x@ == bytes@,
{
    if below_modulus(bytes) {
        Some(F { bytes: *bytes })
    } else {
        None
    }
}

/// Encode a field element as 32 big-endian bytes (circuit / on-chain
/// boundary).
pub fn to_bytes_be(x: &F) -> (r: [u8; FIELD_BYTES])
    ensures
        r@ == x@.reverse(),
{
    reverse32(&x.bytes)
}

/// Decode a field element from 32 big-endian bytes; `None` when the
/// encoding is not canonical.
pub fn from_bytes_be(bytes: &[u8; FIELD_BYTES]) -> (r: Option<F>)
    ensures
        r is Some <==> le_value(bytes@.reverse()) < modulus(),
        r matches Some(x) ==> x@ == bytes@.reverse(),
{
    let le = reverse32(bytes);
    from_bytes_le(&le)
}

/// The field element denoting a `u64` (round ids, indices, test vectors).
pub fn from_u64(n: u64) -> (r: F)
    ensures
        r.value() == n,
        r@.len() == 32,
        r@ == crate::bytes::le_bytes(n as nat, 32),
{
    let mut bytes = [0u8; 32];
    let mut rem: u64 = n;
    let mut i: usize = 0;
    proof {
        assert(bytes@.take(0) =~= Seq::<u8>::empty());
        assert(le_value(bytes@.take(0)) == 0);
        assert(pow256(0) == 1);
    }
    while i < 8
        invariant
            i <= 8,
            bytes@.len() == 32,
            forall|j: int| i <= j < 32 ==> bytes@[j] == 0,
            n == le_value(bytes@.take(i as int)) + pow256(i as nat) * rem,
        decreases 8 - i,
    {
        let b = (rem % 256) as u8;
        let ghost old_bytes = bytes@;
        let ghost old_rem = rem;
        bytes[i] = b;
        rem = rem / 256;
        proof {
            assert(bytes@.take(i + 1).drop_last() =~= old_bytes.take(i as int));
            assert(bytes@.take(i + 1).last() == b);
            let p = pow256(i as nat);
            assert(p * old_rem == p * (b as nat) + (256 * p) * rem) by (nonlinear_arith)
                requires
                    old_rem == 256 * rem + b,
            ;
        }
        i = i + 1;
    }
    proof {
        lemma_le_value_bound(bytes@.take(8));
        reveal_with_fuel(pow256, 9);
        assert(pow256(8) == 18446744073709551616nat);
        assert(rem == 0) by (nonlinear_arith)
            requires
                n == le_value(bytes@.take(8)) + pow256(8) * rem,
                n < 18446744073709551616nat,
                pow256(8) == 18446744073709551616nat,
        ;
        lemma_le_value_zero_tail(bytes@, 8);
        assert(18446744073709551616nat < modulus());
        crate::bytes::lemma_le_bytes_unique(bytes@);
    }
    F { bytes }
}

/// Decoding the little-endian encoding of a valid element gives the element
/// back: the encoding is canonical, and no other element shares it.
pub proof fn law_le_roundtrip(x: F)
    requires
        x.inv(),
    ensures
        le_value(x@) < modulus(),
        forall|y: F| y@ == x@ ==> y == x,
{
    assert forall|y: F| y@ == x@ implies y == x by {
        F::lemma_view_eq(x, y);
    }
}

/// Decoding the big-endian encoding of a valid element gives the element
/// back.
pub proof fn law_be_roundtrip(x: F)
    requires
        x.inv(),
    ensures
        le_value(x@.reverse().reverse()) < modulus(),
        forall|y: F| y@ == x@.reverse().reverse() ==> y == x,
{
    assert(x@.reverse().reverse() =~= x@);
    law_le_roundtrip(x);
}

/// The field element of a `u64` has the same encoding however it is
/// obtained: equal values, equal bytes.
pub proof fn law_value_determines_encoding(x: F, y: F)
    requires
        x.inv(),
        y.inv(),
        x.value() == y.value(),
    ensures
        x == y,
{
    crate::bytes::lemma_le_value_injective(x@, y@);
    F::lemma_view_eq(x, y);
}

} // verus!
