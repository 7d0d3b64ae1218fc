//! Reading encodings back. A reader takes the bytes and a position, and hands out the
//! value whose encoding stands there and the position behind it, or nothing where no
//! value's encoding stands there.

use crate::codec::{bytes_with_len, concat_encodings, u64_le, uleb128, Encode};
use crate::framing::{lemma_bytes_split, lemma_regroup, lemma_u64_split, lemma_uleb128_split};
use vstd::bytes::{lemma_auto_spec_u64_to_from_le_bytes, u64_from_le_bytes};
use vstd::prelude::*;
use vstd::slice::slice_subrange;

verus! {

/// A value with a canonical encoding that can be read back.
pub trait Decode: Encode + Sized {
    /// Whether the value is one that a reader hands out.
    spec fn is_readable(&self) -> bool;

    /// Two values whose encodings, each followed by anything, give the same bytes have
    /// the same encoding, followed by the same.
    proof fn lemma_split(a: Self, b: Self, ra: Seq<u8>, rb: Seq<u8>)
        requires
            a.encoding() + ra == b.encoding() + rb,
        ensures
            a.encoding() == b.encoding(),
            ra == rb,
    ;

    /// Reads the value whose encoding stands at `pos` in `bytes`. Hands out the value
    /// and the position behind its encoding, or nothing where no readable value's
    /// encoding stands there.
    fn decode(bytes: &[u8], pos: usize) -> (r: Option<(Self, usize)>)
        requires
            pos <= bytes@.len(),
        ensures
            r matches Some((v, next)) ==> pos <= next <= bytes@.len() && bytes@.subrange(
                pos as int,
                next as int,
            ) == v.encoding() && v.is_readable(),
            r is None ==> forall|w: Self, tail: Seq<u8>|
                w.is_readable() ==> bytes@.skip(pos as int) != #[trigger] (w.encoding() + tail),
    ;
}

/// The bytes from `pos` on start with the bytes from `pos` to `next`.
pub proof fn lemma_skip_splits(bytes: Seq<u8>, pos: int, next: int)
    requires
        0 <= pos <= next <= bytes.len(),
    ensures
        bytes.skip(pos) == bytes.subrange(pos, next) + bytes.skip(next),
{
    assert(bytes.skip(pos) =~= bytes.subrange(pos, next) + bytes.skip(next));
}

/// Two parts read one behind the other are read as one.
pub proof fn lemma_join(bytes: Seq<u8>, pos: int, mid: int, next: int)
    requires
        0 <= pos <= mid <= next <= bytes.len(),
    ensures
        bytes.subrange(pos, next) == bytes.subrange(pos, mid) + bytes.subrange(mid, next),
{
    assert(bytes.subrange(pos, next) =~= bytes.subrange(pos, mid) + bytes.subrange(mid, next));
}

/// The encoding of a length has at least one byte.
pub proof fn lemma_uleb128_nonempty(n: nat)
    ensures
        uleb128(n).len() > 0,
{
    if n >= 128 {
        assert(uleb128(n) == seq![((n % 128) + 128) as u8] + uleb128(n / 128));
    }
}

/// Reads a length. Hands out nothing where no length that fits a `usize` stands there
/// in its shortest form.
pub fn read_len(bytes: &[u8], pos: usize) -> (r: Option<(usize, usize)>)
    requires
        pos <= bytes@.len(),
    ensures
        r matches Some((n, next)) ==> pos < next <= bytes@.len() && bytes@.subrange(
            pos as int,
            next as int,
        ) == uleb128(n as nat),
        r is None ==> forall|n: usize, tail: Seq<u8>|
            bytes@.skip(pos as int) != #[trigger] (uleb128(n as nat) + tail),
    decreases bytes@.len() - pos,
{
    if pos >= bytes.len() {
        assert forall|n: usize, tail: Seq<u8>| bytes@.skip(pos as int) != #[trigger] (uleb128(
            n as nat,
        ) + tail) by {
            lemma_uleb128_nonempty(n as nat);
            assert(bytes@.skip(pos as int).len() == 0);
            assert((uleb128(n as nat) + tail).len() > 0);
        }
        return None;
    }
    let b = bytes[pos];
    assert(bytes@.skip(pos as int)[0] == b);
    if b < 128 {
        assert(bytes@.subrange(pos as int, pos as int + 1) =~= uleb128(b as nat));
        return Some((b as usize, pos + 1));
    }
    let low = (b - 128) as usize;
    match read_len(bytes, pos + 1) {
        None => {
            assert forall|n: usize, tail: Seq<u8>| bytes@.skip(pos as int) != #[trigger] (uleb128(
                n as nat,
            ) + tail) by {
                if bytes@.skip(pos as int) == uleb128(n as nat) + tail {
                    assert((uleb128(n as nat) + tail)[0] == uleb128(n as nat)[0]);
                    assert(n >= 128);
                    let head = seq![((n as nat % 128) + 128) as u8];
                    lemma_regroup(head, uleb128(n as nat / 128), tail);
                    assert(bytes@.skip(pos as int + 1) =~= bytes@.skip(pos as int).skip(1));
                    assert((head + (uleb128(n as nat / 128) + tail)).skip(1) =~= uleb128(
                        n as nat / 128,
                    ) + tail);
                    let m = (n / 128) as usize;
                    assert(bytes@.skip(pos as int + 1) == uleb128(m as nat) + tail);
                }
            }
            None
        },
        Some((high, next)) => {
            let ghost rest = bytes@.subrange(pos as int + 1, next as int);
            proof {
                lemma_skip_splits(bytes@, pos as int + 1, next as int);
            }
            if high == 0 || high > (usize::MAX - low) / 128 {
                assert forall|n: usize, tail: Seq<u8>| bytes@.skip(pos as int)
                    != #[trigger] (uleb128(n as nat) + tail) by {
                    if bytes@.skip(pos as int) == uleb128(n as nat) + tail {
                        assert((uleb128(n as nat) + tail)[0] == uleb128(n as nat)[0]);
                        assert(n >= 128);
                        let head = seq![((n as nat % 128) + 128) as u8];
                        lemma_regroup(head, uleb128(n as nat / 128), tail);
                        assert(bytes@.skip(pos as int + 1) =~= bytes@.skip(pos as int).skip(1));
                        assert((head + (uleb128(n as nat / 128) + tail)).skip(1) =~= uleb128(
                            n as nat / 128,
                        ) + tail);
                        lemma_uleb128_split(
                            high as nat,
                            n as nat / 128,
                            bytes@.skip(next as int),
                            tail,
                        );
                        assert(n as nat % 128 == low);
                    }
                }
                return None;
            }
            let n = low + 128 * high;
            proof {
                assert(n as nat / 128 == high);
                assert(n as nat % 128 == low);
                assert(uleb128(n as nat) == seq![b] + uleb128(high as nat));
                assert(bytes@.subrange(pos as int, next as int) =~= seq![b] + rest);
            }
            Some((n, next))
        },
    }
}

/// Reads the index of a variant: one byte.
pub fn read_tag(bytes: &[u8], pos: usize) -> (r: Option<(u8, usize)>)
    requires
        pos <= bytes@.len(),
    ensures
        r matches Some((t, next)) ==>
            next == pos + 1 && next <= bytes@.len() && bytes@[pos as int] == t,
        r is None ==> pos == bytes@.len(),
{
    if pos < bytes.len() {
        Some((bytes[pos], pos + 1))
    } else {
        None
    }
}

impl Decode for u64 {
    open spec fn is_readable(&self) -> bool {
        true
    }

    proof fn lemma_split(a: Self, b: Self, ra: Seq<u8>, rb: Seq<u8>) {
        lemma_u64_split(a, b, ra, rb);
    }

    fn decode(bytes: &[u8], pos: usize) -> (r: Option<(Self, usize)>) {
        proof {
            lemma_auto_spec_u64_to_from_le_bytes();
        }
        if bytes.len() - pos < 8 {
            assert forall|w: u64, tail: Seq<u8>| bytes@.skip(pos as int)
                != #[trigger] (w.encoding() + tail) by {
                assert(w.encoding() == u64_le(w));
                assert(u64_le(w).len() == 8);
                assert(bytes@.skip(pos as int).len() < 8);
                assert((w.encoding() + tail).len() >= 8);
            }
            return None;
        }
        let piece = slice_subrange(bytes, pos, pos + 8);
        let v = u64_from_le_bytes(piece);
        assert(v.encoding() == piece@);
        Some((v, pos + 8))
    }
}

/// Reads a byte string behind its length.
pub fn read_bytes(bytes: &[u8], pos: usize) -> (r: Option<(Vec<u8>, usize)>)
    requires
        pos <= bytes@.len(),
    ensures
        r matches Some((v, next)) ==> pos <= next <= bytes@.len() && bytes@.subrange(
            pos as int,
            next as int,
        ) == bytes_with_len(v@),
        r is None ==> forall|s: Seq<u8>, tail: Seq<u8>|
            bytes@.skip(pos as int) != #[trigger] (bytes_with_len(s) + tail),
{
    let total = bytes.len();
    match read_len(bytes, pos) {
        None => {
            assert forall|s: Seq<u8>, tail: Seq<u8>| bytes@.skip(pos as int)
                != #[trigger] (bytes_with_len(s) + tail) by {
                lemma_regroup(uleb128(s.len()), s, tail);
                if s.len() <= usize::MAX {
                    let n: usize = s.len() as usize;
                    assert(bytes_with_len(s) + tail == uleb128(n as nat) + (s + tail));
                } else {
                    assert(bytes@.skip(pos as int).len() <= total);
                    assert((bytes_with_len(s) + tail).len() >= s.len());
                }
            }
            None
        },
        Some((n, start)) => {
            proof {
                lemma_skip_splits(bytes@, pos as int, start as int);
            }
            if bytes.len() - start < n {
                assert forall|s: Seq<u8>, tail: Seq<u8>| bytes@.skip(pos as int)
                    != #[trigger] (bytes_with_len(s) + tail) by {
                    if bytes@.skip(pos as int) == bytes_with_len(s) + tail {
                        lemma_regroup(uleb128(s.len()), s, tail);
                        lemma_uleb128_split(n as nat, s.len(), bytes@.skip(start as int), s + tail);
                    }
                }
                return None;
            }
            let piece = slice_subrange(bytes, start, start + n);
            let v = vstd::slice::slice_to_vec(piece);
            proof {
                lemma_join(bytes@, pos as int, start as int, start as int + n);
            }
            Some((v, start + n))
        },
    }
}

impl Decode for Vec<u8> {
    open spec fn is_readable(&self) -> bool {
        true
    }

    proof fn lemma_split(a: Self, b: Self, ra: Seq<u8>, rb: Seq<u8>) {
        lemma_bytes_split(a@, b@, ra, rb);
    }

    fn decode(bytes: &[u8], pos: usize) -> (r: Option<(Self, usize)>) {
        match read_bytes(bytes, pos) {
            Some((v, next)) => {
                assert(v.encoding() == bytes_with_len(v@));
                assert(v.is_readable());
                Some((v, next))
            },
            None => {
                assert forall|w: Vec<u8>, tail: Seq<u8>| bytes@.skip(pos as int)
                    != #[trigger] (w.encoding() + tail) by {
                    assert(w.encoding() + tail == bytes_with_len(w@) + tail);
                }
                None
            },
        }
    }
}

/// The encodings of the items of a sequence start with that of the first item.
pub proof fn lemma_concat_encodings_front<T: Encode>(s: Seq<T>)
    requires
        s.len() > 0,
    ensures
        concat_encodings(s) == s[0].encoding() + concat_encodings(s.skip(1)),
    decreases s.len(),
{
    if s.len() == 1 {
        assert(s.drop_last() =~= Seq::<T>::empty());
        assert(s.skip(1) =~= Seq::<T>::empty());
        assert(concat_encodings(s) =~= s[0].encoding() + concat_encodings(s.skip(1)));
    } else {
        lemma_concat_encodings_front(s.drop_last());
        assert(s.drop_last().skip(1) =~= s.skip(1).drop_last());
        assert(s.skip(1).last() == s.last());
        assert(concat_encodings(s) =~= s[0].encoding() + concat_encodings(s.skip(1)));
    }
}

/// Sequences of one length, one after the other, that give the same bytes have the
/// same encodings.
pub proof fn lemma_items_split<T: Decode>(a: Seq<T>, b: Seq<T>, ra: Seq<u8>, rb: Seq<u8>)
    requires
        a.len() == b.len(),
        concat_encodings(a) + ra == concat_encodings(b) + rb,
    ensures
        concat_encodings(a) == concat_encodings(b),
        ra == rb,
    decreases a.len(),
{
    if a.len() == 0 {
        assert(concat_encodings(a) + ra =~= ra);
        assert(concat_encodings(b) + rb =~= rb);
    } else {
        lemma_concat_encodings_front(a);
        lemma_concat_encodings_front(b);
        let ta = concat_encodings(a.skip(1)) + ra;
        let tb = concat_encodings(b.skip(1)) + rb;
        lemma_regroup(a[0].encoding(), concat_encodings(a.skip(1)), ra);
        lemma_regroup(b[0].encoding(), concat_encodings(b.skip(1)), rb);
        T::lemma_split(a[0], b[0], ta, tb);
        lemma_items_split(a.skip(1), b.skip(1), ra, rb);
    }
}

/// Sequences of one length, one after the other, that give the same bytes have, item
/// by item, the same encodings.
pub proof fn lemma_items_agree<T: Decode>(a: Seq<T>, b: Seq<T>, ra: Seq<u8>, rb: Seq<u8>)
    requires
        a.len() == b.len(),
        concat_encodings(a) + ra == concat_encodings(b) + rb,
    ensures
        forall|i: int| 0 <= i < a.len() ==> (#[trigger] a[i]).encoding() == b[i].encoding(),
    decreases a.len(),
{
    if a.len() > 0 {
        lemma_concat_encodings_front(a);
        lemma_concat_encodings_front(b);
        let ta = concat_encodings(a.skip(1)) + ra;
        let tb = concat_encodings(b.skip(1)) + rb;
        lemma_regroup(a[0].encoding(), concat_encodings(a.skip(1)), ra);
        lemma_regroup(b[0].encoding(), concat_encodings(b.skip(1)), rb);
        T::lemma_split(a[0], b[0], ta, tb);
        lemma_items_agree(a.skip(1), b.skip(1), ra, rb);
        assert forall|i: int| 0 <= i < a.len() implies (#[trigger] a[i]).encoding()
            == b[i].encoding() by {
            if i > 0 {
                assert(a.skip(1)[i - 1] == a[i]);
                assert(b.skip(1)[i - 1] == b[i]);
            }
        }
    }
}

/// Where the first items of a sequence were read and the next one cannot be, the
/// sequence does not stand there: what stands behind the items read would have to
/// start with the next item.
pub proof fn lemma_items_behind<T: Decode>(
    bytes: Seq<u8>,
    start: int,
    cur: int,
    done: Seq<T>,
    w: Seq<T>,
    tail: Seq<u8>,
)
    requires
        0 <= start <= cur <= bytes.len(),
        bytes.subrange(start, cur) == concat_encodings(done),
        done.len() < w.len(),
        bytes.skip(start) == concat_encodings(w) + tail,
    ensures
        bytes.skip(cur) == w[done.len() as int].encoding() + (concat_encodings(
            w.skip(done.len() as int + 1),
        ) + tail),
    decreases done.len(),
{
    let k = done.len() as int;
    let head = w.take(k);
    let rest = w.skip(k);
    lemma_concat_encodings_append(head, rest);
    assert(head + rest =~= w);
    lemma_regroup(concat_encodings(head), concat_encodings(rest), tail);
    lemma_skip_splits(bytes, start, cur);
    lemma_items_split(done, head, bytes.skip(cur), concat_encodings(rest) + tail);
    lemma_concat_encodings_front(rest);
    assert(rest.skip(1) =~= w.skip(k + 1));
    lemma_regroup(rest[0].encoding(), concat_encodings(rest.skip(1)), tail);
}

/// The encodings of two sequences, one after the other, are the encodings of the
/// sequences joined.
pub proof fn lemma_concat_encodings_append<T: Encode>(a: Seq<T>, b: Seq<T>)
    ensures
        concat_encodings(a + b) == concat_encodings(a) + concat_encodings(b),
    decreases b.len(),
{
    if b.len() == 0 {
        assert(a + b =~= a);
        assert(concat_encodings(a) + concat_encodings(b) =~= concat_encodings(a));
    } else {
        lemma_concat_encodings_append(a, b.drop_last());
        assert((a + b).drop_last() =~= a + b.drop_last());
        assert((a + b).last() == b.last());
        lemma_regroup(concat_encodings(a), concat_encodings(b.drop_last()), b.last().encoding());
    }
}

/// Whether every item of `s` is one that a reader hands out.
pub open spec fn all_readable<T: Decode>(s: Seq<T>) -> bool {
    forall|i: int| 0 <= i < s.len() ==> (#[trigger] s[i]).is_readable()
}

/// Reads a sequence behind its length: the length, then so many items.
pub fn decode_vec<T: Decode>(bytes: &[u8], pos: usize) -> (r: Option<(Vec<T>, usize)>)
    requires
        pos <= bytes@.len(),
    ensures
        r matches Some((v, next)) ==> pos <= next <= bytes@.len() && bytes@.subrange(
            pos as int,
            next as int,
        ) == uleb128(v@.len()) + concat_encodings(v@) && all_readable(v@),
        r is None ==> forall|w: Vec<T>, tail: Seq<u8>|
            all_readable(w@) ==> bytes@.skip(pos as int) != #[trigger] (uleb128(w@.len())
                + concat_encodings(w@) + tail),
        r is None ==> forall|s: Seq<T>, tail: Seq<u8>|
            all_readable(s) && s.len() <= usize::MAX ==>
                bytes@.skip(pos as int)
                != #[trigger] (uleb128(s.len()) + concat_encodings(s) + tail),
{
    let (n, start) = match read_len(bytes, pos) {
        None => {
            assert forall|s: Seq<T>, tail: Seq<u8>| s.len() <= usize::MAX
                implies bytes@.skip(pos as int) != #[trigger] (uleb128(s.len())
                + concat_encodings(s) + tail) by {
                let n: usize = s.len() as usize;
                lemma_regroup(uleb128(n as nat), concat_encodings(s), tail);
                assert(uleb128(s.len()) + concat_encodings(s) + tail
                    == uleb128(n as nat) + (concat_encodings(s) + tail));
            }
            assert forall|w: Vec<T>, tail: Seq<u8>| bytes@.skip(pos as int) != #[trigger] (uleb128(
                w@.len(),
            ) + concat_encodings(w@) + tail) by {
                let n: usize = w.len();
                lemma_regroup(uleb128(n as nat), concat_encodings(w@), tail);
                assert(uleb128(w@.len()) + concat_encodings(w@) + tail
                    == uleb128(n as nat) + (concat_encodings(w@) + tail));
            }
            return None;
        },
        Some(found) => found,
    };
    proof {
        lemma_skip_splits(bytes@, pos as int, start as int);
    }
    let mut out: Vec<T> = Vec::new();
    let mut cur: usize = start;
    let mut i: usize = 0;
    while i < n
        invariant
            i <= n,
            pos < start <= cur <= bytes@.len(),
            out@.len() == i,
            all_readable(out@),
            bytes@.subrange(pos as int, start as int) == uleb128(n as nat),
            bytes@.skip(pos as int) == uleb128(n as nat) + bytes@.skip(start as int),
            bytes@.subrange(start as int, cur as int) == concat_encodings(out@),
        decreases n - i,
    {
        match T::decode(bytes, cur) {
            None => {
                assert forall|s: Seq<T>, tail: Seq<u8>| all_readable(s)
                    implies bytes@.skip(pos as int) != #[trigger] (uleb128(s.len())
                    + concat_encodings(s) + tail) by {
                    if bytes@.skip(pos as int) == uleb128(s.len()) + concat_encodings(s) + tail {
                        lemma_regroup(uleb128(s.len()), concat_encodings(s), tail);
                        lemma_uleb128_split(
                            n as nat,
                            s.len(),
                            bytes@.skip(start as int),
                            concat_encodings(s) + tail,
                        );
                        lemma_items_behind(bytes@, start as int, cur as int, out@, s, tail);
                        assert(s[i as int].is_readable());
                    }
                }
                assert forall|w: Vec<T>, tail: Seq<u8>| all_readable(w@) implies bytes@.skip(
                    pos as int,
                ) != #[trigger] (uleb128(w@.len()) + concat_encodings(w@) + tail) by {
                    if bytes@.skip(pos as int) == uleb128(w@.len()) + concat_encodings(w@) + tail {
                        lemma_regroup(uleb128(w@.len()), concat_encodings(w@), tail);
                        lemma_uleb128_split(
                            n as nat,
                            w@.len(),
                            bytes@.skip(start as int),
                            concat_encodings(w@) + tail,
                        );
                        lemma_items_behind(bytes@, start as int, cur as int, out@, w@, tail);
                        assert(w@[i as int].is_readable());
                    }
                }
                return None;
            },
            Some((item, next)) => {
                proof {
                    let before = out@;
                    let after = before.push(item);
                    assert(after.drop_last() =~= before);
                    lemma_join(bytes@, start as int, cur as int, next as int);
                }
                out.push(item);
                cur = next;
            },
        }
        i += 1;
    }
    proof {
        lemma_join(bytes@, pos as int, start as int, cur as int);
    }
    Some((out, cur))
}

/// Reads the value whose encoding `bytes` are, all of them. Hands out nothing where
/// they are the encoding of no readable value.
pub fn decode_all<T: Decode>(bytes: &[u8]) -> (r: Option<T>)
    ensures
        r matches Some(v) ==> v.encoding() == bytes@ && v.is_readable(),
        r is None ==> forall|w: T| w.is_readable() ==> #[trigger] w.encoding() != bytes@,
{
    match T::decode(bytes, 0) {
        Some((v, next)) => {
            proof {
                lemma_skip_splits(bytes@, 0, next as int);
                assert(bytes@.skip(0) =~= bytes@);
            }
            if next == bytes.len() {
                assert(bytes@.subrange(0, next as int) =~= bytes@);
                Some(v)
            } else {
                assert forall|w: T| w.is_readable() implies #[trigger] w.encoding() != bytes@ by {
                    if w.encoding() == bytes@ {
                        let empty = Seq::<u8>::empty();
                        assert(w.encoding() + empty =~= bytes@);
                        T::lemma_split(v, w, bytes@.skip(next as int), empty);
                        assert(bytes@.skip(next as int).len() > 0);
                    }
                }
                None
            }
        },
        None => {
            assert forall|w: T| w.is_readable() implies #[trigger] w.encoding() != bytes@ by {
                let empty = Seq::<u8>::empty();
                assert(bytes@.skip(0) =~= bytes@);
                assert(w.encoding() + empty =~= w.encoding());
            }
            None
        },
    }
}

/// Reading undoes encoding: from the encoding of a readable value, every reading that
/// `decode_all` allows hands out a value with that encoding.
pub proof fn lemma_decode_round_trip<T: Decode>(x: T, bytes: &[u8], r: Option<T>)
    requires
        x.is_readable(),
        bytes@ == x.encoding(),
        call_ensures(decode_all::<T>, (bytes,), r),
    ensures
        r matches Some(y) && y.encoding() == x.encoding() && y.is_readable(),
{
}

} // verus!
