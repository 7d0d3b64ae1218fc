//! Why an encoding can be read back: no encoding of a value is the head of the
//! encoding of another, so a reader that meets one knows where it ends and what it
//! stands for.

use crate::codec::{bytes_with_len, concat_map, encode_option, encode_seq, u64_le, uleb128};
use vstd::bytes::{lemma_auto_spec_u64_to_from_le_bytes, spec_u64_from_le_bytes};
use vstd::prelude::*;

verus! {

/// Whether `enc` can be read back: two values whose encodings, each followed by
/// anything, give the same bytes are the same value, followed by the same.
pub open spec fn unambiguous<T>(enc: spec_fn(T) -> Seq<u8>) -> bool {
    forall|a: T, b: T, ra: Seq<u8>, rb: Seq<u8>|
        #[trigger] (enc(a) + ra) == #[trigger] (enc(b) + rb) ==> a == b && ra == rb
}

/// Where two byte strings of one length, each followed by anything, give the same
/// bytes, they are the same, followed by the same.
pub proof fn lemma_same_length_split(x: Seq<u8>, y: Seq<u8>, ra: Seq<u8>, rb: Seq<u8>)
    requires
        x.len() == y.len(),
        x + ra == y + rb,
    ensures
        x == y,
        ra == rb,
{
    let n = x.len() as int;
    assert((x + ra).subrange(0, n) =~= x);
    assert((y + rb).subrange(0, n) =~= y);
    assert((x + ra).subrange(n, (x + ra).len() as int) =~= ra);
    assert((y + rb).subrange(n, (y + rb).len() as int) =~= rb);
}

/// What is followed by the same is the same.
pub proof fn lemma_cancel_tail(x: Seq<u8>, y: Seq<u8>, r: Seq<u8>)
    requires
        x + r == y + r,
    ensures
        x == y,
{
    assert((x + r).len() == x.len() + r.len());
    assert((y + r).len() == y.len() + r.len());
    lemma_same_length_split(x, y, r, r);
}

/// Joining is associative, the way the lemmas below need it.
pub proof fn lemma_regroup(x: Seq<u8>, y: Seq<u8>, z: Seq<u8>)
    ensures
        (x + y) + z == x + (y + z),
{
    assert((x + y) + z =~= x + (y + z));
}

/// A length can be read back.
pub proof fn lemma_uleb128_split(n: nat, m: nat, ra: Seq<u8>, rb: Seq<u8>)
    requires
        uleb128(n) + ra == uleb128(m) + rb,
    ensures
        n == m,
        ra == rb,
    decreases n,
{
    let x = uleb128(n) + ra;
    let y = uleb128(m) + rb;
    assert(x[0] == uleb128(n)[0]);
    assert(y[0] == uleb128(m)[0]);
    if n < 128 {
        assert(uleb128(n) =~= seq![n as u8]);
        if m >= 128 {
            assert(uleb128(m)[0] == ((m % 128) + 128) as u8);
        }
        assert(uleb128(m) =~= seq![m as u8]);
        lemma_same_length_split(uleb128(n), uleb128(m), ra, rb);
    } else {
        if m < 128 {
            assert(uleb128(m) =~= seq![m as u8]);
            assert(uleb128(n)[0] == ((n % 128) + 128) as u8);
        }
        let hn = seq![((n % 128) + 128) as u8];
        let hm = seq![((m % 128) + 128) as u8];
        assert(uleb128(n) == hn + uleb128(n / 128));
        assert(uleb128(m) == hm + uleb128(m / 128));
        lemma_regroup(hn, uleb128(n / 128), ra);
        lemma_regroup(hm, uleb128(m / 128), rb);
        assert(hn[0] == hm[0]);
        assert(hn =~= hm);
        lemma_same_length_split(hn, hm, uleb128(n / 128) + ra, uleb128(m / 128) + rb);
        lemma_uleb128_split(n / 128, m / 128, ra, rb);
    }
}

/// A number can be read back.
pub proof fn lemma_u64_split(n: u64, m: u64, ra: Seq<u8>, rb: Seq<u8>)
    requires
        u64_le(n) + ra == u64_le(m) + rb,
    ensures
        n == m,
        ra == rb,
{
    lemma_auto_spec_u64_to_from_le_bytes();
    lemma_same_length_split(u64_le(n), u64_le(m), ra, rb);
    assert(spec_u64_from_le_bytes(u64_le(n)) == n);
    assert(spec_u64_from_le_bytes(u64_le(m)) == m);
}

/// A byte string behind its length can be read back.
pub proof fn lemma_bytes_split(x: Seq<u8>, y: Seq<u8>, ra: Seq<u8>, rb: Seq<u8>)
    requires
        bytes_with_len(x) + ra == bytes_with_len(y) + rb,
    ensures
        x == y,
        ra == rb,
{
    lemma_regroup(uleb128(x.len()), x, ra);
    lemma_regroup(uleb128(y.len()), y, rb);
    lemma_uleb128_split(x.len(), y.len(), x + ra, y + rb);
    lemma_same_length_split(x, y, ra, rb);
}

/// The encodings of the items of a sequence start with that of the first item.
pub proof fn lemma_concat_map_front<T>(s: Seq<T>, f: spec_fn(T) -> Seq<u8>)
    requires
        s.len() > 0,
    ensures
        concat_map(s, f) == f(s[0]) + concat_map(s.skip(1), f),
    decreases s.len(),
{
    if s.len() == 1 {
        assert(s.drop_last() =~= Seq::<T>::empty());
        assert(s.skip(1) =~= Seq::<T>::empty());
        assert(concat_map(s, f) =~= f(s[0]) + concat_map(s.skip(1), f));
    } else {
        lemma_concat_map_front(s.drop_last(), f);
        assert(s.drop_last().skip(1) =~= s.skip(1).drop_last());
        assert(s.skip(1).last() == s.last());
        assert(concat_map(s, f) =~= f(s[0]) + concat_map(s.skip(1), f));
    }
}

/// Sequences of one length whose items can be read back can be read back.
pub proof fn lemma_concat_split<T>(
    a: Seq<T>,
    b: Seq<T>,
    ra: Seq<u8>,
    rb: Seq<u8>,
    f: spec_fn(T) -> Seq<u8>,
)
    requires
        unambiguous(f),
        a.len() == b.len(),
        concat_map(a, f) + ra == concat_map(b, f) + rb,
    ensures
        a == b,
        ra == rb,
    decreases a.len(),
{
    if a.len() == 0 {
        assert(a =~= b);
        assert(concat_map(a, f) + ra =~= ra);
        assert(concat_map(b, f) + rb =~= rb);
    } else {
        lemma_concat_map_front(a, f);
        lemma_concat_map_front(b, f);
        let ta = concat_map(a.skip(1), f) + ra;
        let tb = concat_map(b.skip(1), f) + rb;
        lemma_regroup(f(a[0]), concat_map(a.skip(1), f), ra);
        lemma_regroup(f(b[0]), concat_map(b.skip(1), f), rb);
        assert(f(a[0]) + ta == f(b[0]) + tb);
        assert(a[0] == b[0] && ta == tb);
        lemma_concat_split(a.skip(1), b.skip(1), ra, rb, f);
        assert(a =~= seq![a[0]] + a.skip(1));
        assert(b =~= seq![b[0]] + b.skip(1));
    }
}

/// A sequence behind its length can be read back where its items can.
pub proof fn lemma_seq_split<T>(
    a: Seq<T>,
    b: Seq<T>,
    ra: Seq<u8>,
    rb: Seq<u8>,
    f: spec_fn(T) -> Seq<u8>,
)
    requires
        unambiguous(f),
        encode_seq(a, f) + ra == encode_seq(b, f) + rb,
    ensures
        a == b,
        ra == rb,
{
    lemma_regroup(uleb128(a.len()), concat_map(a, f), ra);
    lemma_regroup(uleb128(b.len()), concat_map(b, f), rb);
    lemma_uleb128_split(a.len(), b.len(), concat_map(a, f) + ra, concat_map(b, f) + rb);
    lemma_concat_split(a, b, ra, rb, f);
}

/// An optional value can be read back where the value can.
pub proof fn lemma_option_split<T>(
    a: Option<T>,
    b: Option<T>,
    ra: Seq<u8>,
    rb: Seq<u8>,
    f: spec_fn(T) -> Seq<u8>,
)
    requires
        unambiguous(f),
        encode_option(a, f) + ra == encode_option(b, f) + rb,
    ensures
        a == b,
        ra == rb,
{
    let x = encode_option(a, f) + ra;
    let y = encode_option(b, f) + rb;
    assert(x[0] == encode_option(a, f)[0]);
    assert(y[0] == encode_option(b, f)[0]);
    match (a, b) {
        (None, None) => {
            lemma_same_length_split(seq![0u8], seq![0u8], ra, rb);
        },
        (Some(u), Some(v)) => {
            lemma_regroup(seq![1u8], f(u), ra);
            lemma_regroup(seq![1u8], f(v), rb);
            lemma_same_length_split(seq![1u8], seq![1u8], f(u) + ra, f(v) + rb);
        },
        _ => {},
    }
}

/// Numbers can be read back.
pub proof fn lemma_u64_unambiguous()
    ensures
        unambiguous(|n: u64| u64_le(n)),
{
    let enc = |n: u64| u64_le(n);
    assert forall|a: u64, b: u64, ra: Seq<u8>, rb: Seq<u8>| #[trigger]
        (enc(a) + ra) == #[trigger] (enc(b) + rb) implies a == b && ra == rb by {
        lemma_u64_split(a, b, ra, rb);
    }
}

/// Byte strings behind their lengths can be read back.
pub proof fn lemma_bytes_unambiguous()
    ensures
        unambiguous(|m: Seq<u8>| bytes_with_len(m)),
{
    let enc = |m: Seq<u8>| bytes_with_len(m);
    assert forall|a: Seq<u8>, b: Seq<u8>, ra: Seq<u8>, rb: Seq<u8>| #[trigger]
        (enc(a) + ra) == #[trigger] (enc(b) + rb) implies a == b && ra == rb by {
        lemma_bytes_split(a, b, ra, rb);
    }
}

} // verus!
