//! The canonical binary encoding: integers little-endian, lengths and variant indices
//! as ULEB128, sequences prefixed by their length, records as their fields in order.

use vstd::bytes::{spec_u64_to_le_bytes, u64_to_le_bytes};
use vstd::prelude::*;

verus! {

/// The ULEB128 encoding of `n`: seven bits per byte, least significant first, the high
/// bit set on every byte but the last.
pub open spec fn uleb128(n: nat) -> Seq<u8>
    decreases n,
{
    if n < 128 {
        seq![n as u8]
    } else {
        seq![((n % 128) + 128) as u8] + uleb128(n / 128)
    }
}

/// The eight bytes of `n`, least significant first.
pub open spec fn u64_le(n: u64) -> Seq<u8> {
    spec_u64_to_le_bytes(n)
}

/// A byte string behind its length.
pub open spec fn bytes_with_len(b: Seq<u8>) -> Seq<u8> {
    uleb128(b.len()) + b
}

/// The encodings of the items of `s` under `f`, one after the other.
pub open spec fn concat_map<T>(s: Seq<T>, f: spec_fn(T) -> Seq<u8>) -> Seq<u8>
    decreases s.len(),
{
    if s.len() == 0 {
        Seq::empty()
    } else {
        concat_map(s.drop_last(), f) + f(s.last())
    }
}

/// A sequence: its length, then its items under `f`.
pub open spec fn encode_seq<T>(s: Seq<T>, f: spec_fn(T) -> Seq<u8>) -> Seq<u8> {
    uleb128(s.len()) + concat_map(s, f)
}

/// An optional value: a zero byte, or a one byte and the value under `f`.
pub open spec fn encode_option<T>(o: Option<T>, f: spec_fn(T) -> Seq<u8>) -> Seq<u8> {
    match o {
        None => seq![0u8],
        Some(x) => seq![1u8] + f(x),
    }
}

/// The mathematical forms of the items of `s`.
pub open spec fn views_of<T: View>(s: Seq<T>) -> Seq<T::V> {
    Seq::new(s.len(), |i: int| s[i]@)
}

/// The index of a variant, as it precedes the variant's fields.
pub open spec fn variant_tag(index: u8) -> Seq<u8> {
    seq![index]
}

/// Taking one more item into `concat_map` appends that item's encoding.
pub proof fn lemma_concat_map_step<T>(s: Seq<T>, f: spec_fn(T) -> Seq<u8>, i: int)
    requires
        0 <= i < s.len(),
    ensures
        concat_map(s.take(i + 1), f) == concat_map(s.take(i), f) + f(s[i]),
{
    assert(s.take(i + 1).drop_last() =~= s.take(i));
    assert(s.take(i + 1).last() == s[i]);
}

/// Appends the ULEB128 encoding of `n`.
pub fn write_uleb128(out: &mut Vec<u8>, n: usize)
    ensures
        final(out)@ == old(out)@ + uleb128(n as nat),
{
    let mut rest: usize = n;
    let ghost start = out@;
    while rest >= 128
        invariant
            start + uleb128(n as nat) == out@ + uleb128(rest as nat),
        decreases rest,
    {
        let low: u8 = (rest % 128) as u8 + 128;
        out.push(low);
        proof {
            let pushed = out@;
            assert(uleb128(rest as nat) == seq![((rest as nat % 128) + 128) as u8] + uleb128(
                rest as nat / 128,
            ));
            assert(pushed + uleb128(rest as nat / 128) =~= pushed.drop_last() + uleb128(
                rest as nat,
            ));
        }
        rest = rest / 128;
    }
    out.push(rest as u8);
    assert(out@ =~= out@.drop_last() + uleb128(rest as nat));
}

/// Appends the bytes of `b` as they are.
pub fn write_raw(out: &mut Vec<u8>, b: &[u8])
    ensures
        final(out)@ == old(out)@ + b@,
{
    let ghost start = out@;
    let mut i: usize = 0;
    while i < b.len()
        invariant
            i <= b.len(),
            out@ == start + b@.take(i as int),
        decreases b.len() - i,
    {
        out.push(b[i]);
        assert(out@ =~= start + b@.take(i as int + 1));
        i += 1;
    }
    assert(b@.take(b.len() as int) =~= b@);
}

/// Appends `b` behind its length.
pub fn write_bytes(out: &mut Vec<u8>, b: &[u8])
    ensures
        final(out)@ == old(out)@ + bytes_with_len(b@),
{
    let ghost start = out@;
    write_uleb128(out, b.len());
    write_raw(out, b);
    assert(out@ =~= start + bytes_with_len(b@));
}

/// Appends the eight bytes of `n`, least significant first.
pub fn write_u64(out: &mut Vec<u8>, n: u64)
    ensures
        final(out)@ == old(out)@ + u64_le(n),
{
    let bytes = u64_to_le_bytes(n);
    write_raw(out, bytes.as_slice());
}

/// Appends the index of a variant.
pub fn write_tag(out: &mut Vec<u8>, index: u8)
    ensures
        final(out)@ == old(out)@ + variant_tag(index),
{
    out.push(index);
    assert(out@ =~= old(out)@ + variant_tag(index));
}

/// A value with a canonical encoding.
pub trait Encode {
    /// The canonical encoding of the value.
    spec fn encoding(&self) -> Seq<u8>;

    /// Appends the canonical encoding of the value.
    fn encode(&self, out: &mut Vec<u8>)
        ensures
            final(out)@ == old(out)@ + self.encoding(),
    ;
}

/// The encodings of the items of `s`, one after the other.
pub open spec fn concat_encodings<T: Encode>(s: Seq<T>) -> Seq<u8>
    decreases s.len(),
{
    if s.len() == 0 {
        Seq::empty()
    } else {
        concat_encodings(s.drop_last()) + s.last().encoding()
    }
}

/// Where `f` gives each item's encoding, `concat_map` under `f` is the items' encodings
/// one after the other.
pub proof fn lemma_concat_encodings<T: Encode>(s: Seq<T>, f: spec_fn(T) -> Seq<u8>)
    requires
        forall|i: int| 0 <= i < s.len() ==> f(s[i]) == (#[trigger] s[i]).encoding(),
    ensures
        concat_map(s, f) == concat_encodings(s),
    decreases s.len(),
{
    if s.len() > 0 {
        lemma_concat_encodings(s.drop_last(), f);
    }
}

/// Where `g` gives the encoding of each item from its mathematical form, `concat_map`
/// under `g` over the forms is the items' encodings one after the other.
pub proof fn lemma_concat_views<T: Encode + View>(s: Seq<T>, g: spec_fn(T::V) -> Seq<u8>)
    requires
        forall|i: int| 0 <= i < s.len() ==> g(s[i]@) == (#[trigger] s[i]).encoding(),
    ensures
        concat_map(views_of(s), g) == concat_encodings(s),
    decreases s.len(),
{
    if s.len() > 0 {
        assert(views_of(s).drop_last() =~= views_of(s.drop_last()));
        lemma_concat_views(s.drop_last(), g);
    }
}

/// Appends the length of `v`, then the canonical encoding of each item.
pub fn encode_vec<T: Encode>(v: &Vec<T>, out: &mut Vec<u8>)
    ensures
        final(out)@ == old(out)@ + uleb128(v@.len()) + concat_encodings(v@),
{
    write_uleb128(out, v.len());
    let ghost head = out@;
    let mut i: usize = 0;
    while i < v.len()
        invariant
            i <= v.len(),
            out@ == head + concat_encodings(v@.take(i as int)),
        decreases v.len() - i,
    {
        assert(v@.take(i as int + 1).drop_last() =~= v@.take(i as int));
        v[i].encode(out);
        assert(out@ =~= head + concat_encodings(v@.take(i as int + 1)));
        i += 1;
    }
    assert(v@.take(v.len() as int) =~= v@);
}

} // verus!
