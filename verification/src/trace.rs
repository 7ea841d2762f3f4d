//! The anonymity ruler.
//!
//! A behavioral pool advertises its anonymity as `k`, the number of members.
//! On a public ledger that number overstates the crowd, because where each
//! member's funds came from is public too: members funded from one source are
//! correlated. This module groups a sampled pool by funding source and gives
//! the integer measures of the gap: the advertised `k`, the number of distinct
//! sources, the size of the largest funding class, and the self-fill floor
//! (the independent cover left if the largest funder is adversarial).
use vstd::prelude::*;
use vstd::string::StringExecFns;

verus! {

/// One pool member and the source that funded it.
#[derive(Clone, Debug)]
pub struct Member {
    /// The member wallet (opaque; used only for reporting).
    pub wallet: String,
    /// Where this member's funds came from. Members sharing it are correlated.
    pub funding_source: String,
}

/// A sampled pool.
#[derive(Clone, Debug)]
pub struct PoolSample {
    pub members: Vec<Member>,
}

/// The integer measures of a pool's anonymity.
#[derive(Clone, Copy, Debug, PartialEq, Eq, Structural)]
pub struct FundingCounts {
    /// The advertised anonymity: the member count.
    pub advertised_k: usize,
    /// The number of distinct funding sources.
    pub distinct_sources: usize,
    /// The size of the largest funding class (0 for an empty pool).
    pub largest_class: usize,
    /// `k` minus the largest class: the cover left if that funder is hostile.
    pub self_fill_floor: usize,
}

/// The funding sources of the members, in order.
pub open spec fn sources(members: Seq<Member>) -> Seq<Seq<char>> {
    members.map_values(|m: Member| m.funding_source@)
}

/// How many entries of `s` equal `x`.
pub open spec fn occurrences(s: Seq<Seq<char>>, x: Seq<char>) -> nat
    decreases s.len(),
{
    if s.len() == 0 {
        0
    } else {
        occurrences(s.drop_last(), x) + if s.last() == x {
            1nat
        } else {
            0nat
        }
    }
}

/// `v` is the size of the largest class of `s` (0 when `s` is empty).
pub open spec fn is_largest_class(s: Seq<Seq<char>>, v: nat) -> bool {
    &&& forall|k: int| 0 <= k < s.len() ==> occurrences(s, #[trigger] s[k]) <= v
    &&& s.len() == 0 ==> v == 0
    &&& s.len() > 0 ==> exists|k: int| 0 <= k < s.len() && occurrences(s, #[trigger] s[k]) == v
}

/// `classes` lists each funding source of `s` once, with its class size.
pub open spec fn is_class_list(s: Seq<Seq<char>>, classes: Seq<(String, usize)>) -> bool {
    &&& forall|i: int|
        0 <= i < classes.len() ==> (#[trigger] classes[i]).1 == occurrences(s, classes[i].0@)
            && s.contains(classes[i].0@)
    &&& forall|i: int, j: int| 0 <= i < j < classes.len() ==> classes[i].0@ != classes[j].0@
    &&& forall|k: int| 0 <= k < s.len() ==> exists|i: int| 0 <= i < classes.len() && (#[trigger] classes[i]).0@ == #[trigger] s[k]
}

/// The sum of the class sizes.
pub open spec fn class_total(classes: Seq<(String, usize)>) -> nat
    decreases classes.len(),
{
    if classes.len() == 0 {
        0
    } else {
        class_total(classes.drop_last()) + classes.last().1 as nat
    }
}

/// Adding one to a class adds one to the total.
proof fn lemma_class_total_bump(c: Seq<(String, usize)>, j: int, p: (String, usize))
    requires
        0 <= j < c.len(),
        p.1 == c[j].1 + 1,
    ensures
        class_total(c.update(j, p)) == class_total(c) + 1,
    decreases c.len(),
{
    if j == c.len() - 1 {
        assert(c.update(j, p).drop_last() =~= c.drop_last());
    } else {
        lemma_class_total_bump(c.drop_last(), j, p);
        assert(c.update(j, p).drop_last() =~= c.drop_last().update(j, p));
    }
}

/// A total is at most the number of classes times the largest class.
proof fn lemma_class_total_bound(c: Seq<(String, usize)>, v: nat)
    requires
        forall|i: int| 0 <= i < c.len() ==> (#[trigger] c[i]).1 <= v,
    ensures
        class_total(c) <= c.len() * v,
    decreases c.len(),
{
    if c.len() > 0 {
        lemma_class_total_bound(c.drop_last(), v);
        assert(c.last().1 <= v);
        assert(class_total(c) <= (c.len() - 1) * v + v);
        assert((c.len() - 1) * v + v == c.len() * v) by (nonlinear_arith);
    }
}

/// Appending one entry adds one occurrence of that entry and none of others.
proof fn lemma_occurrences_push(s: Seq<Seq<char>>, y: Seq<char>, x: Seq<char>)
    ensures
        occurrences(s.push(y), x) == occurrences(s, x) + if y == x {
            1nat
        } else {
            0nat
        },
{
    assert(s.push(y).drop_last() =~= s);
}

/// No class is larger than the sequence.
proof fn lemma_occurrences_bound(s: Seq<Seq<char>>, x: Seq<char>)
    ensures
        occurrences(s, x) <= s.len(),
    decreases s.len(),
{
    if s.len() > 0 {
        lemma_occurrences_bound(s.drop_last(), x);
    }
}

/// A value that does not occur has no occurrences.
proof fn lemma_occurrences_absent(s: Seq<Seq<char>>, x: Seq<char>)
    requires
        !s.contains(x),
    ensures
        occurrences(s, x) == 0,
    decreases s.len(),
{
    if s.len() > 0 {
        assert(!s.drop_last().contains(x)) by {
            if s.drop_last().contains(x) {
                let k = choose|k: int| 0 <= k < s.drop_last().len() && s.drop_last()[k] == x;
                assert(s[k] == x);
            }
        }
        assert(s[s.len() - 1] == s.last());
        lemma_occurrences_absent(s.drop_last(), x);
    }
}

/// The bytes a source name orders by (its UTF-8 encoding).
pub open spec fn source_key(name: Seq<char>) -> Seq<u8> {
    vstd::utf8::encode_utf8(name)
}

/// Strict lexicographic order on byte strings (a proper prefix comes first).
pub open spec fn lex_lt(a: Seq<u8>, b: Seq<u8>) -> bool
    decreases a.len(),
{
    if b.len() == 0 {
        false
    } else if a.len() == 0 {
        true
    } else if a[0] != b[0] {
        a[0] < b[0]
    } else {
        lex_lt(a.drop_first(), b.drop_first())
    }
}

/// The classes are in strictly increasing order of source.
pub open spec fn sorted_by_source(classes: Seq<(String, usize)>) -> bool {
    forall|a: int, b: int|
        0 <= a < b < classes.len() ==> lex_lt(
            source_key((#[trigger] classes[a]).0@),
            source_key((#[trigger] classes[b]).0@),
        )
}

proof fn lemma_lex_irreflexive(a: Seq<u8>)
    ensures
        !lex_lt(a, a),
    decreases a.len(),
{
    if a.len() > 0 {
        lemma_lex_irreflexive(a.drop_first());
    }
}

proof fn lemma_lex_transitive(a: Seq<u8>, b: Seq<u8>, c: Seq<u8>)
    requires
        lex_lt(a, b),
        lex_lt(b, c),
    ensures
        lex_lt(a, c),
    decreases a.len(),
{
    if a.len() > 0 && b.len() > 0 && c.len() > 0 && a[0] == b[0] && b[0] == c[0] {
        lemma_lex_transitive(a.drop_first(), b.drop_first(), c.drop_first());
    }
}

proof fn lemma_lex_total(a: Seq<u8>, b: Seq<u8>)
    requires
        a != b,
    ensures
        lex_lt(a, b) || lex_lt(b, a),
    decreases a.len(),
{
    if a.len() > 0 && b.len() > 0 && a[0] == b[0] {
        if a.drop_first() == b.drop_first() {
            assert(a =~= seq![a[0]] + a.drop_first());
            assert(b =~= seq![b[0]] + b.drop_first());
        }
        lemma_lex_total(a.drop_first(), b.drop_first());
    } else if a.len() == 0 && b.len() == 0 {
        assert(a =~= b);
    }
}

/// Different names have different keys.
proof fn lemma_key_injective(x: Seq<char>, y: Seq<char>)
    requires
        x != y,
    ensures
        source_key(x) != source_key(y),
{
    vstd::utf8::encode_utf8_decode_utf8(x);
    vstd::utf8::encode_utf8_decode_utf8(y);
}

/// Sorted classes have distinct names.
proof fn lemma_sorted_distinct(c: Seq<(String, usize)>)
    requires
        sorted_by_source(c),
    ensures
        forall|i: int, j: int| 0 <= i < j < c.len() ==> c[i].0@ != c[j].0@,
{
    assert forall|i: int, j: int| 0 <= i < j < c.len() implies c[i].0@ != c[j].0@ by {
        assert(lex_lt(source_key(c[i].0@), source_key(c[j].0@)));
        if c[i].0@ == c[j].0@ {
            lemma_lex_irreflexive(source_key(c[i].0@));
        }
    }
}

/// Inserting a class adds its size to the total.
proof fn lemma_class_total_insert(c: Seq<(String, usize)>, j: int, p: (String, usize))
    requires
        0 <= j <= c.len(),
    ensures
        class_total(c.insert(j, p)) == class_total(c) + p.1,
    decreases c.len(),
{
    if j == c.len() {
        assert(c.insert(j, p).drop_last() =~= c);
    } else {
        lemma_class_total_insert(c.drop_last(), j, p);
        assert(c.insert(j, p).drop_last() =~= c.drop_last().insert(j, p));
    }
}

/// Whether `a` comes before `b` byte-wise.
fn bytes_lt(a: &[u8], b: &[u8]) -> (r: bool)
    ensures
        r == lex_lt(a@, b@),
{
    let mut i: usize = 0;
    proof {
        assert(a@.skip(0) =~= a@);
        assert(b@.skip(0) =~= b@);
    }
    while i < a.len() && i < b.len()
        invariant
            i <= a@.len(),
            i <= b@.len(),
            lex_lt(a@, b@) == lex_lt(a@.skip(i as int), b@.skip(i as int)),
        decreases a@.len() - i,
    {
        if a[i] != b[i] {
            return a[i] < b[i];
        }
        proof {
            assert(a@.skip(i as int).drop_first() =~= a@.skip(i + 1));
            assert(b@.skip(i as int).drop_first() =~= b@.skip(i + 1));
        }
        i = i + 1;
    }
    i < b.len()
}

/// Counting one more member of an existing class keeps a sorted class list.
#[verifier::spinoff_prover]
proof fn lemma_bump_step(
    prefix: Seq<Seq<char>>,
    src: Seq<char>,
    old_r: Seq<(String, usize)>,
    j: int,
    r: Seq<(String, usize)>,
)
    requires
        is_class_list(prefix, old_r),
        sorted_by_source(old_r),
        0 <= j < old_r.len(),
        old_r[j].0@ == src,
        r == old_r.update(j, r[j]),
        r[j].0@ == src,
        r[j].1 == old_r[j].1 + 1,
    ensures
        is_class_list(prefix.push(src), r),
        sorted_by_source(r),
        class_total(r) == class_total(old_r) + 1,
{
    let next = prefix.push(src);
    lemma_class_total_bump(old_r, j, r[j]);
    assert forall|i: int| 0 <= i < r.len() implies (#[trigger] r[i]).1 == occurrences(next, r[i].0@)
        && next.contains(r[i].0@) by {
        lemma_occurrences_push(prefix, src, r[i].0@);
        let k = choose|k: int| 0 <= k < prefix.len() && prefix[k] == old_r[i].0@;
        assert(next[k] == r[i].0@);
    }
    assert forall|k: int| 0 <= k < next.len() implies exists|i: int|
        0 <= i < r.len() && (#[trigger] r[i]).0@ == #[trigger] next[k] by {
        if k < prefix.len() {
            assert(next[k] == prefix[k]);
            let i = choose|i: int| 0 <= i < old_r.len() && (#[trigger] old_r[i]).0@ == prefix[k];
            assert(r[i].0@ == next[k]);
        } else {
            assert(r[j].0@ == next[k]);
        }
    }
    assert forall|a: int, b: int| 0 <= a < b < r.len() implies lex_lt(
        source_key((#[trigger] r[a]).0@),
        source_key((#[trigger] r[b]).0@),
    ) by {
        assert(r[a].0@ == old_r[a].0@);
        assert(r[b].0@ == old_r[b].0@);
    }
    lemma_sorted_distinct(r);
}

/// Inserting a new class at its sorted position keeps a sorted class list.
#[verifier::spinoff_prover]
proof fn lemma_insert_step(
    prefix: Seq<Seq<char>>,
    src: Seq<char>,
    old_r: Seq<(String, usize)>,
    j: int,
    entry: (String, usize),
    r: Seq<(String, usize)>,
)
    requires
        is_class_list(prefix, old_r),
        sorted_by_source(old_r),
        0 <= j <= old_r.len(),
        forall|jj: int| 0 <= jj < j ==> lex_lt(source_key((#[trigger] old_r[jj]).0@), source_key(src)),
        j < old_r.len() ==> !lex_lt(source_key(old_r[j].0@), source_key(src)),
        j < old_r.len() ==> old_r[j].0@ != src,
        entry.0@ == src,
        entry.1 == 1,
        r == old_r.insert(j, entry),
    ensures
        is_class_list(prefix.push(src), r),
        sorted_by_source(r),
        class_total(r) == class_total(old_r) + 1,
{
    let key = source_key(src);
    let next = prefix.push(src);
    lemma_lex_irreflexive(key);
    // Every class from position `j` on is above `src`.
    assert forall|i: int| j <= i < old_r.len() implies lex_lt(key, source_key((#[trigger] old_r[i]).0@)) by {
        lemma_key_injective(old_r[j].0@, src);
        lemma_lex_total(key, source_key(old_r[j].0@));
        if i > j {
            lemma_lex_transitive(key, source_key(old_r[j].0@), source_key(old_r[i].0@));
        }
    }
    assert(!prefix.contains(src)) by {
        if prefix.contains(src) {
            let k = choose|k: int| 0 <= k < prefix.len() && prefix[k] == src;
            assert(exists|i: int| 0 <= i < old_r.len() && (#[trigger] old_r[i]).0@ == prefix[k]);
            let i = choose|i: int| 0 <= i < old_r.len() && (#[trigger] old_r[i]).0@ == prefix[k];
            if i < j {
                assert(lex_lt(source_key(old_r[i].0@), key));
            } else {
                assert(lex_lt(key, source_key(old_r[i].0@)));
            }
        }
    }
    lemma_occurrences_absent(prefix, src);
    lemma_class_total_insert(old_r, j, entry);
    assert forall|i: int| 0 <= i < r.len() implies (#[trigger] r[i]).1 == occurrences(next, r[i].0@)
        && next.contains(r[i].0@) by {
        lemma_occurrences_push(prefix, src, r[i].0@);
        if i < j {
            assert(r[i] == old_r[i]);
            let k = choose|k: int| 0 <= k < prefix.len() && prefix[k] == old_r[i].0@;
            assert(next[k] == r[i].0@);
        } else if i == j {
            assert(next[prefix.len() as int] == r[i].0@);
        } else {
            assert(r[i] == old_r[i - 1]);
            let k = choose|k: int| 0 <= k < prefix.len() && prefix[k] == old_r[i - 1].0@;
            assert(next[k] == r[i].0@);
        }
    }
    assert forall|k: int| 0 <= k < next.len() implies exists|i: int|
        0 <= i < r.len() && (#[trigger] r[i]).0@ == #[trigger] next[k] by {
        if k < prefix.len() {
            assert(next[k] == prefix[k]);
            let i = choose|i: int| 0 <= i < old_r.len() && (#[trigger] old_r[i]).0@ == prefix[k];
            if i < j {
                assert(r[i] == old_r[i]);
                assert(r[i].0@ == next[k]);
            } else {
                assert(r[i + 1] == old_r[i]);
                assert(r[i + 1].0@ == next[k]);
            }
        } else {
            assert(r[j].0@ == next[k]);
        }
    }
    assert forall|a: int, b: int| 0 <= a < b < r.len() implies lex_lt(
        source_key((#[trigger] r[a]).0@),
        source_key((#[trigger] r[b]).0@),
    ) by {
        if b < j {
            assert(r[a] == old_r[a] && r[b] == old_r[b]);
        } else if b == j {
            assert(r[a] == old_r[a]);
        } else if a < j {
            assert(r[a] == old_r[a] && r[b] == old_r[b - 1]);
            lemma_lex_transitive(source_key(old_r[a].0@), key, source_key(old_r[b - 1].0@));
        } else if a == j {
            assert(r[b] == old_r[b - 1]);
        } else {
            assert(r[a] == old_r[a - 1] && r[b] == old_r[b - 1]);
        }
    }
    lemma_sorted_distinct(r);
}

impl PoolSample {
    /// The funding sources of the members, in order.
    pub open spec fn spec_sources(&self) -> Seq<Seq<char>> {
        sources(self.members@)
    }

    /// The size of each funding class, one entry per distinct source,
    /// ordered by source (byte-wise, as `str` orders).
#[verifier::spinoff_prover]
    pub fn class_sizes(&self) -> (r: Vec<(String, usize)>)
        ensures
            is_class_list(self.spec_sources(), r@),
            sorted_by_source(r@),
            class_total(r@) == self.members@.len(),
    {
        let ghost s = self.spec_sources();
        let mut r: Vec<(String, usize)> = Vec::new();
        let mut m: usize = 0;
        while m < self.members.len()
            invariant
                m <= self.members@.len(),
                s == self.spec_sources(),
                s.len() == self.members@.len(),
                is_class_list(s.take(m as int), r@),
                sorted_by_source(r@),
                class_total(r@) == m,
            decreases self.members@.len() - m,
        {
            let src = &self.members[m].funding_source;
            let key = src.as_str().as_bytes();
            let ghost prefix = s.take(m as int);
            let ghost next = s.take(m + 1);
            proof {
                assert(next =~= prefix.push(src@));
                assert(s[m as int] == src@);
            }
            // The first class whose source is not below `src`.
            let mut j: usize = 0;
            while j < r.len()
                invariant
                    j <= r@.len(),
                    key@ == source_key(src@),
                    forall|jj: int| 0 <= jj < j ==> lex_lt(source_key((#[trigger] r@[jj]).0@), key@),
                ensures
                    j <= r@.len(),
                    forall|jj: int| 0 <= jj < j ==> lex_lt(source_key((#[trigger] r@[jj]).0@), key@),
                    j < r@.len() ==> !lex_lt(source_key(r@[j as int].0@), key@),
                decreases r@.len() - j,
            {
                if !bytes_lt(r[j].0.as_str().as_bytes(), key) {
                    break;
                }
                j = j + 1;
            }
            let found = j < r.len() && r[j].0 == *src;
            let ghost old_r = r@;
            if found {
                proof {
                    lemma_occurrences_bound(prefix, src@);
                    assert(old_r[j as int].1 == occurrences(prefix, src@));
                }
                let name = r[j].0.clone();
                let count = r[j].1 + 1;
                r.set(j, (name, count));
                proof {
                    assert(r@ =~= old_r.update(j as int, r@[j as int]));
                    lemma_bump_step(prefix, src@, old_r, j as int, r@);
                }
            } else {
                let entry = (src.clone(), 1usize);
                r.insert(j, entry);
                proof {
                    lemma_insert_step(prefix, src@, old_r, j as int, entry, r@);
                }
            }
            m = m + 1;
        }
        proof {
            assert(s.take(m as int) =~= s);
        }
        r
    }

    /// The integer anonymity measures of the pool.
#[verifier::spinoff_prover]
    pub fn funding_counts(&self) -> (c: FundingCounts)
        ensures
            c.advertised_k == self.members@.len(),
            c.distinct_sources == self.spec_sources().to_set().len(),
            is_largest_class(self.spec_sources(), c.largest_class as nat),
            c.self_fill_floor == c.advertised_k - c.largest_class,
            c.advertised_k <= c.largest_class * c.distinct_sources,
    {
        let ghost s = self.spec_sources();
        let n = self.members.len();
        let sizes = self.class_sizes();
        let mut largest: usize = 0;
        let mut i: usize = 0;
        while i < sizes.len()
            invariant
                i <= sizes@.len(),
                s == self.spec_sources(),
                s.len() == n,
                is_class_list(s, sizes@),
                class_total(sizes@) == n,
                forall|ii: int| 0 <= ii < i ==> (#[trigger] sizes@[ii]).1 <= largest,
                i == 0 ==> largest == 0,
                i > 0 ==> exists|ii: int| 0 <= ii < i && (#[trigger] sizes@[ii]).1 == largest,
                largest <= n,
            decreases sizes@.len() - i,
        {
            proof {
                lemma_occurrences_bound(s, sizes@[i as int].0@);
            }
            if sizes[i].1 > largest {
                largest = sizes[i].1;
            }
            i = i + 1;
        }
        proof {
            assert forall|k: int| 0 <= k < s.len() implies occurrences(s, #[trigger] s[k])
                <= largest by {
                let ii = choose|ii: int| 0 <= ii < sizes@.len() && (#[trigger] sizes@[ii]).0@ == s[k];
            }
            if s.len() > 0 {
                assert(s[0] == s[0]);
                let ii = choose|ii: int| 0 <= ii < i && (#[trigger] sizes@[ii]).1 == largest;
                let k = choose|k: int| 0 <= k < s.len() && s[k] == sizes@[ii].0@;
                assert(occurrences(s, s[k]) == largest);
            } else {
                assert(sizes@.len() == 0) by {
                    if sizes@.len() > 0 {
                        assert(s.contains(sizes@[0].0@));
                    }
                }
            }
            lemma_class_count(s, sizes@);
            lemma_class_total_bound(sizes@, largest as nat);
            assert(sizes@.len() * largest == largest * sizes@.len()) by (nonlinear_arith);
        }
        FundingCounts {
            advertised_k: n,
            distinct_sources: sizes.len(),
            largest_class: largest,
            self_fill_floor: n - largest,
        }
    }
}

/// The decimal digits of `n`, most significant first.
pub open spec fn decimal(n: nat) -> Seq<char>
    decreases n,
{
    if n < 10 {
        seq![((48 + n) as u8) as char]
    } else {
        decimal(n / 10).push(((48 + n % 10) as u8) as char)
    }
}

/// The decimal digit `d` as a one-character string.
fn digit_str(d: usize) -> (s: &'static str)
    requires
        d < 10,
    ensures
        s@ == seq![((48 + d) as u8) as char],
{
    match d {
        0 => {
            proof {
                reveal_strlit("0");
            }
            "0"
        },
        1 => {
            proof {
                reveal_strlit("1");
            }
            "1"
        },
        2 => {
            proof {
                reveal_strlit("2");
            }
            "2"
        },
        3 => {
            proof {
                reveal_strlit("3");
            }
            "3"
        },
        4 => {
            proof {
                reveal_strlit("4");
            }
            "4"
        },
        5 => {
            proof {
                reveal_strlit("5");
            }
            "5"
        },
        6 => {
            proof {
                reveal_strlit("6");
            }
            "6"
        },
        7 => {
            proof {
                reveal_strlit("7");
            }
            "7"
        },
        8 => {
            proof {
                reveal_strlit("8");
            }
            "8"
        },
        _ => {
            proof {
                reveal_strlit("9");
            }
            "9"
        },
    }
}

/// `n` in decimal.
fn decimal_string(n: usize) -> (s: String)
    ensures
        s@ == decimal(n as nat),
    decreases n,
{
    if n < 10 {
        String::from_str(digit_str(n))
    } else {
        let mut s = decimal_string(n / 10);
        let ghost before = s@;
        s.append(digit_str(n % 10));
        proof {
            assert(s@ =~= before.push(((48 + n % 10) as u8) as char));
        }
        s
    }
}

/// `prefix` followed by `i` in decimal.
fn numbered(prefix: &str, i: usize) -> (s: String)
    ensures
        s@ == prefix@ + decimal(i as nat),
{
    let digits = decimal_string(i);
    String::from_str(prefix).concat(digits.as_str())
}

/// A concentrated pool: 30 members, but most trace back to a few funders.
/// Members `a0..a13` are funded by `kraken-hot`, `b0..b5` by `coinbase-hot`,
/// and `c0..c9` each by their own `indep-<i>`.
#[verifier::spinoff_prover]
pub fn demo_pool() -> (p: PoolSample)
    ensures
        p.members@.len() == 30,
        forall|i: int|
            0 <= i < 14 ==> (#[trigger] p.members@[i]).wallet@ == "a"@ + decimal(i as nat)
                && p.members@[i].funding_source@ == "kraken-hot"@,
        forall|i: int|
            14 <= i < 20 ==> (#[trigger] p.members@[i]).wallet@ == "b"@ + decimal((i - 14) as nat)
                && p.members@[i].funding_source@ == "coinbase-hot"@,
        forall|i: int|
            20 <= i < 30 ==> (#[trigger] p.members@[i]).wallet@ == "c"@ + decimal((i - 20) as nat)
                && p.members@[i].funding_source@ == "indep-"@ + decimal((i - 20) as nat),
{
    let mut members: Vec<Member> = Vec::new();
    let mut i: usize = 0;
    while i < 14
        invariant
            i <= 14,
            members@.len() == i,
            forall|j: int|
                0 <= j < i ==> (#[trigger] members@[j]).wallet@ == "a"@ + decimal(j as nat)
                    && members@[j].funding_source@ == "kraken-hot"@,
        decreases 14 - i,
    {
        members.push(
            Member { wallet: numbered("a", i), funding_source: String::from_str("kraken-hot") },
        );
        i = i + 1;
    }
    let mut i: usize = 0;
    while i < 6
        invariant
            i <= 6,
            members@.len() == 14 + i,
            forall|j: int|
                0 <= j < 14 ==> (#[trigger] members@[j]).wallet@ == "a"@ + decimal(j as nat)
                    && members@[j].funding_source@ == "kraken-hot"@,
            forall|j: int|
                14 <= j < 14 + i ==> (#[trigger] members@[j]).wallet@ == "b"@ + decimal(
                    (j - 14) as nat,
                ) && members@[j].funding_source@ == "coinbase-hot"@,
        decreases 6 - i,
    {
        members.push(
            Member { wallet: numbered("b", i), funding_source: String::from_str("coinbase-hot") },
        );
        i = i + 1;
    }
    let mut i: usize = 0;
    while i < 10
        invariant
            i <= 10,
            members@.len() == 20 + i,
            forall|j: int|
                0 <= j < 14 ==> (#[trigger] members@[j]).wallet@ == "a"@ + decimal(j as nat)
                    && members@[j].funding_source@ == "kraken-hot"@,
            forall|j: int|
                14 <= j < 20 ==> (#[trigger] members@[j]).wallet@ == "b"@ + decimal(
                    (j - 14) as nat,
                ) && members@[j].funding_source@ == "coinbase-hot"@,
            forall|j: int|
                20 <= j < 20 + i ==> (#[trigger] members@[j]).wallet@ == "c"@ + decimal(
                    (j - 20) as nat,
                ) && members@[j].funding_source@ == "indep-"@ + decimal((j - 20) as nat),
        decreases 10 - i,
    {
        members.push(Member { wallet: numbered("c", i), funding_source: numbered("indep-", i) });
        i = i + 1;
    }
    PoolSample { members }
}

/// A class list has one entry per distinct source.
proof fn lemma_class_count(s: Seq<Seq<char>>, classes: Seq<(String, usize)>)
    requires
        is_class_list(s, classes),
    ensures
        classes.len() == s.to_set().len(),
{
    let keys = classes.map_values(|p: (String, usize)| p.0@);
    assert(keys.no_duplicates()) by {
        assert forall|i: int, j: int| 0 <= i < keys.len() && 0 <= j < keys.len() && i != j implies keys[i]
            != keys[j] by {
            if i < j {
                assert(classes[i].0@ != classes[j].0@);
            } else {
                assert(classes[j].0@ != classes[i].0@);
            }
        }
    }
    keys.unique_seq_to_set();
    assert(keys.to_set() =~= s.to_set()) by {
        assert forall|x: Seq<char>| keys.to_set().contains(x) implies s.to_set().contains(x) by {
            let i = choose|i: int| 0 <= i < keys.len() && keys[i] == x;
            assert(s.contains(classes[i].0@));
        }
        assert forall|x: Seq<char>| s.to_set().contains(x) implies keys.to_set().contains(x) by {
            let k = choose|k: int| 0 <= k < s.len() && s[k] == x;
            let i = choose|i: int| 0 <= i < classes.len() && (#[trigger] classes[i]).0@ == #[trigger] s[k];
            assert(keys[i] == x);
        }
    }
}

} // verus!
