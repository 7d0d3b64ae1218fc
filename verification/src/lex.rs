//! Lexicographic order on byte strings, and association lists kept sorted by it.

use vstd::prelude::*;

verus! {

/// Strict lexicographic order on byte strings: the first differing byte decides, and a
/// proper prefix comes before the longer string.
pub open spec fn lex_lt(a: Seq<u8>, b: Seq<u8>) -> bool
    decreases a.len(),
{
    if a.len() == 0 {
        b.len() > 0
    } else if b.len() == 0 {
        false
    } else if a[0] != b[0] {
        a[0] < b[0]
    } else {
        lex_lt(a.drop_first(), b.drop_first())
    }
}

/// No byte string comes before itself.
pub proof fn lemma_lex_irreflexive(a: Seq<u8>)
    ensures
        !lex_lt(a, a),
    decreases a.len(),
{
    if a.len() > 0 {
        lemma_lex_irreflexive(a.drop_first());
    }
}

/// The order is transitive.
pub proof fn lemma_lex_transitive(a: Seq<u8>, b: Seq<u8>, c: Seq<u8>)
    requires
        lex_lt(a, b),
        lex_lt(b, c),
    ensures
        lex_lt(a, c),
    decreases a.len(),
{
    if a.len() > 0 && b.len() > 0 && c.len() > 0 && a[0] == b[0] && b[0] == c[0] {
        lemma_lex_transitive(a.drop_first(), b.drop_first(), c.drop_first());
    }
}

/// Any two byte strings are equal or ordered one way.
pub proof fn lemma_lex_total(a: Seq<u8>, b: Seq<u8>)
    ensures
        a == b || lex_lt(a, b) || lex_lt(b, a),
    decreases a.len(),
{
    if a.len() == 0 || b.len() == 0 {
        if a.len() == 0 && b.len() == 0 {
            assert(a =~= b);
        }
    } else if a[0] == b[0] {
        lemma_lex_total(a.drop_first(), b.drop_first());
        if a.drop_first() == b.drop_first() {
            assert(a =~= seq![a[0]] + a.drop_first());
            assert(b =~= seq![b[0]] + b.drop_first());
        }
    }
}

/// The order is asymmetric.
pub proof fn lemma_lex_asymmetric(a: Seq<u8>, b: Seq<u8>)
    requires
        lex_lt(a, b),
    ensures
        !lex_lt(b, a),
        a != b,
{
    lemma_lex_irreflexive(a);
    if lex_lt(b, a) {
        lemma_lex_transitive(a, b, a);
    }
}

/// Whether the byte strings of `s` strictly increase.
pub open spec fn strictly_sorted(s: Seq<Seq<u8>>) -> bool {
    forall|i: int, j: int| 0 <= i < j < s.len() ==> lex_lt(#[trigger] s[i], #[trigger] s[j])
}

/// Two strictly increasing sequences with the same members are the same sequence.
pub proof fn lemma_sorted_unique(s1: Seq<Seq<u8>>, s2: Seq<Seq<u8>>)
    requires
        strictly_sorted(s1),
        strictly_sorted(s2),
        forall|k: Seq<u8>| s1.contains(k) <==> s2.contains(k),
    ensures
        s1 == s2,
    decreases s1.len(),
{
    if s1.len() == 0 {
        if s2.len() > 0 {
            assert(s2.contains(s2[0]));
        }
        assert(s1 =~= s2);
    } else {
        let a = s1.last();
        assert(s1.contains(a));
        let j = choose|j: int| 0 <= j < s2.len() && s2[j] == a;
        let b = s2.last();
        assert(s2.contains(b));
        let i = choose|i: int| 0 <= i < s1.len() && s1[i] == b;
        if j < s2.len() - 1 {
            assert(lex_lt(s2[j], s2[s2.len() - 1]));
            lemma_lex_asymmetric(a, b);
            if i < s1.len() - 1 {
                assert(lex_lt(s1[i], s1[s1.len() - 1]));
            }
        }
        assert(a == b);
        let t1 = s1.drop_last();
        let t2 = s2.drop_last();
        assert forall|k: Seq<u8>| t1.contains(k) <==> t2.contains(k) by {
            if t1.contains(k) {
                let x = choose|x: int| 0 <= x < t1.len() && t1[x] == k;
                assert(lex_lt(s1[x], s1[s1.len() - 1]));
                lemma_lex_asymmetric(k, a);
                assert(s1.contains(k));
                let y = choose|y: int| 0 <= y < s2.len() && s2[y] == k;
                assert(t2[y] == k);
            }
            if t2.contains(k) {
                let x = choose|x: int| 0 <= x < t2.len() && t2[x] == k;
                assert(lex_lt(s2[x], s2[s2.len() - 1]));
                lemma_lex_asymmetric(k, b);
                assert(s2.contains(k));
                let y = choose|y: int| 0 <= y < s1.len() && s1[y] == k;
                assert(t1[y] == k);
            }
        }
        assert(strictly_sorted(t1)) by {
            assert forall|x: int, y: int| 0 <= x < y < t1.len() implies lex_lt(
                #[trigger] t1[x],
                #[trigger] t1[y],
            ) by {
                assert(lex_lt(s1[x], s1[y]));
            }
        }
        assert(strictly_sorted(t2)) by {
            assert forall|x: int, y: int| 0 <= x < y < t2.len() implies lex_lt(
                #[trigger] t2[x],
                #[trigger] t2[y],
            ) by {
                assert(lex_lt(s2[x], s2[y]));
            }
        }
        lemma_sorted_unique(t1, t2);
        assert(s1 =~= t1.push(a));
        assert(s2 =~= t2.push(b));
    }
}

/// Whether `a` comes strictly before `b`.
pub fn bytes_lt(a: &[u8], b: &[u8]) -> (r: bool)
    ensures
        r == lex_lt(a@, b@),
{
    let mut i: usize = 0;
    assert(a@.skip(0) =~= a@ && b@.skip(0) =~= b@);
    while i < a.len() && i < b.len()
        invariant
            i <= a.len(),
            i <= b.len(),
            lex_lt(a@, b@) == lex_lt(a@.skip(i as int), b@.skip(i as int)),
        decreases a.len() - i,
    {
        assert(a@.skip(i as int).drop_first() =~= a@.skip(i as int + 1));
        assert(b@.skip(i as int).drop_first() =~= b@.skip(i as int + 1));
        if a[i] != b[i] {
            return a[i] < b[i];
        }
        i += 1;
    }
    i >= a.len() && i < b.len()
}

/// Whether `a` and `b` hold the same bytes.
pub fn bytes_eq(a: &[u8], b: &[u8]) -> (r: bool)
    ensures
        r == (a@ == b@),
{
    if a.len() != b.len() {
        return false;
    }
    let mut i: usize = 0;
    while i < a.len()
        invariant
            i <= a.len(),
            a.len() == b.len(),
            forall|j: int| 0 <= j < i ==> a@[j] == b@[j],
        decreases a.len() - i,
    {
        if a[i] != b[i] {
            return false;
        }
        i += 1;
    }
    assert(a@ =~= b@);
    true
}

/// A value that is identified and ordered by a byte string.
pub trait ByteKey: Sized {
    /// The bytes that identify the value.
    spec fn key(&self) -> Seq<u8>;

    /// Whether `self` comes strictly before `other`.
    fn key_lt(&self, other: &Self) -> (r: bool)
        ensures
            r == lex_lt(self.key(), other.key()),
    ;

    /// Whether `self` and `other` have the same key.
    fn key_eq(&self, other: &Self) -> (r: bool)
        ensures
            r == (self.key() == other.key()),
    ;
}

/// Whether the keys of `s` strictly increase.
pub open spec fn sorted_by_key<K: ByteKey, V>(s: Seq<(K, V)>) -> bool {
    forall|i: int, j: int| 0 <= i < j < s.len() ==>
        lex_lt(#[trigger] s[i].0.key(), #[trigger] s[j].0.key())
}

/// Whether some entry of `s` has the key `k`.
pub open spec fn has_key<K: ByteKey, V>(s: Seq<(K, V)>, k: Seq<u8>) -> bool {
    exists|i: int| 0 <= i < s.len() && #[trigger] s[i].0.key() == k
}

/// The first position of `v` whose key does not come before that of `key`, and whether
/// the entry there has that very key.
pub fn lower_bound<K: ByteKey, V>(v: &Vec<(K, V)>, key: &K) -> (r: (usize, bool))
    requires
        sorted_by_key(v@),
    ensures
        r.0 <= v.len(),
        forall|i: int| 0 <= i < r.0 ==> lex_lt(#[trigger] v@[i].0.key(), key.key()),
        forall|i: int| r.0 <= i < v.len() ==> !lex_lt(#[trigger] v@[i].0.key(), key.key()),
        r.1 == has_key(v@, key.key()),
        r.1 ==> r.0 < v.len() && v@[r.0 as int].0.key() == key.key(),
{
    let mut i: usize = 0;
    while i < v.len()
        invariant
            i <= v.len(),
            sorted_by_key(v@),
            forall|j: int| 0 <= j < i ==> lex_lt(#[trigger] v@[j].0.key(), key.key()),
        decreases v.len() - i,
    {
        if !v[i].0.key_lt(key) {
            let found = v[i].0.key_eq(key);
            proof {
                assert forall|j: int| i <= j < v.len() implies !lex_lt(
                    #[trigger] v@[j].0.key(),
                    key.key(),
                ) by {
                    if j > i && lex_lt(v@[j].0.key(), key.key()) {
                        lemma_lex_transitive(v@[i as int].0.key(), v@[j].0.key(), key.key());
                    }
                }
                if !found {
                    assert forall|j: int| 0 <= j < v.len()
                        implies #[trigger] v@[j].0.key() != key.key() by {
                        if j < i {
                            lemma_lex_asymmetric(v@[j].0.key(), key.key());
                        } else if j > i {
                            lemma_lex_total(v@[i as int].0.key(), key.key());
                            lemma_lex_transitive(key.key(), v@[i as int].0.key(), v@[j].0.key());
                            lemma_lex_asymmetric(key.key(), v@[j].0.key());
                        }
                    }
                }
            }
            return (i, found);
        }
        i += 1;
    }
    proof {
        assert forall|j: int| 0 <= j < v.len() implies #[trigger] v@[j].0.key() != key.key() by {
            lemma_lex_asymmetric(v@[j].0.key(), key.key());
        }
    }
    (i, false)
}

/// Puts `key` with `val` into the sorted list `v`, unless an entry has that key
/// already. Returns whether the entry was put in.
pub fn insert_sorted<K: ByteKey, V>(v: &mut Vec<(K, V)>, key: K, val: V) -> (r: bool)
    requires
        sorted_by_key(old(v)@),
    ensures
        sorted_by_key(final(v)@),
        r == !has_key(old(v)@, key.key()),
        !r ==> final(v)@ == old(v)@,
        r ==> exists|pos: int|
            0 <= pos <= old(v)@.len() && final(v)@ == old(v)@.insert(pos, (key, val)),
        forall|k: Seq<u8>| has_key(final(v)@, k) <==> has_key(old(v)@, k) || k == key.key(),
{
    let (pos, found) = lower_bound(v, &key);
    if found {
        return false;
    }
    let ghost before = v@;
    let ghost k0 = key.key();
    v.insert(pos, (key, val));
    proof {
        let after = v@;
        assert(after == before.insert(pos as int, (key, val)));
        assert forall|i: int, j: int| 0 <= i < j < after.len() implies lex_lt(
            #[trigger] after[i].0.key(),
            #[trigger] after[j].0.key(),
        ) by {
            if j < pos {
                assert(lex_lt(before[i].0.key(), before[j].0.key()));
            } else if j == pos {
                assert(lex_lt(before[i].0.key(), k0));
            } else if i < pos {
                assert(lex_lt(before[i].0.key(), k0));
                assert(!lex_lt(before[j - 1].0.key(), k0));
                assert(before[j - 1].0.key() != k0);
                lemma_lex_total(before[j - 1].0.key(), k0);
                if i < j - 1 {
                    assert(lex_lt(before[i].0.key(), before[j - 1].0.key()));
                }
            } else if i == pos {
                assert(!lex_lt(before[j - 1].0.key(), k0));
                assert(before[j - 1].0.key() != k0);
                lemma_lex_total(before[j - 1].0.key(), k0);
            } else {
                assert(lex_lt(before[i - 1].0.key(), before[j - 1].0.key()));
            }
        }
        assert forall|k: Seq<u8>| has_key(after, k) <==> has_key(before, k) || k == k0 by {
            if has_key(after, k) {
                let i = choose|i: int| 0 <= i < after.len() && #[trigger] after[i].0.key() == k;
                if i < pos {
                    assert(before[i].0.key() == k);
                } else if i > pos {
                    assert(before[i - 1].0.key() == k);
                }
            }
            if has_key(before, k) {
                let i = choose|i: int| 0 <= i < before.len() && #[trigger] before[i].0.key() == k;
                if i < pos {
                    assert(after[i].0.key() == k);
                } else {
                    assert(after[i + 1].0.key() == k);
                }
            }
            if k == k0 {
                assert(after[pos as int].0.key() == k);
            }
        }
    }
    true
}

} // verus!
