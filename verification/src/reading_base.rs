//! Reading identifiers, addresses and digests back: so many bytes as they are.

use crate::base_types::{
    AccountAddress, AuthorityName, ObjectDigest, ObjectID, SuiAddress, TransactionDigest,
};
use crate::codec::{write_raw, Encode};
use crate::crypto::{AggregateAuthoritySignature, AuthoritySignature, Signature};
use crate::framing::lemma_same_length_split;
use crate::reading::Decode;
use vstd::array::array_fill_for_copy_types;
use vstd::prelude::*;

verus! {

/// Reads `N` bytes as they are. Hands out nothing where fewer are left.
pub fn read_array<const N: usize>(bytes: &[u8], pos: usize) -> (r: Option<([u8; N], usize)>)
    requires
        pos <= bytes@.len(),
    ensures
        r matches Some((a, next)) ==>
            next == pos + N && next <= bytes@.len()
            && a@ == bytes@.subrange(pos as int, next as int),
        r is None ==> bytes@.len() - pos < N,
{
    if bytes.len() - pos < N {
        return None;
    }
    let mut a: [u8; N] = array_fill_for_copy_types::<u8, N>(0);
    let mut i: usize = 0;
    while i < N
        invariant
            i <= N,
            pos + N <= bytes@.len(),
            bytes@.len() <= usize::MAX,
            forall|j: int| 0 <= j < i ==> a@[j] == bytes@[pos + j],
        decreases N - i,
    {
        a[i] = bytes[pos + i];
        i += 1;
    }
    assert(a@ =~= bytes@.subrange(pos as int, pos + N));
    Some((a, pos + N))
}

impl Decode for ObjectID {
    open spec fn is_readable(&self) -> bool {
        true
    }

    proof fn lemma_split(a: Self, b: Self, ra: Seq<u8>, rb: Seq<u8>) {
        assert(a.encoding() == a.0@ && b.encoding() == b.0@);
        lemma_same_length_split(a.0@, b.0@, ra, rb);
    }

    fn decode(bytes: &[u8], pos: usize) -> (r: Option<(Self, usize)>) {
        match read_array::<20>(bytes, pos) {
            Some((a, next)) => {
                let v = ObjectID(a);
                assert(v.encoding() == a@);
                assert(v.is_readable());
                Some((v, next))
            },
            None => {
                assert forall|w: ObjectID, tail: Seq<u8>| bytes@.skip(pos as int)
                    != #[trigger] (w.encoding() + tail) by {
                    assert(w.encoding() == w.0@);
                    assert(bytes@.skip(pos as int).len() < 20);
                    assert((w.encoding() + tail).len() >= 20);
                }
                None
            },
        }
    }
}

impl Decode for SuiAddress {
    open spec fn is_readable(&self) -> bool {
        true
    }

    proof fn lemma_split(a: Self, b: Self, ra: Seq<u8>, rb: Seq<u8>) {
        assert(a.encoding() == a.0@ && b.encoding() == b.0@);
        lemma_same_length_split(a.0@, b.0@, ra, rb);
    }

    fn decode(bytes: &[u8], pos: usize) -> (r: Option<(Self, usize)>) {
        match read_array::<20>(bytes, pos) {
            Some((a, next)) => {
                let v = SuiAddress(a);
                assert(v.encoding() == a@);
                assert(v.is_readable());
                Some((v, next))
            },
            None => {
                assert forall|w: SuiAddress, tail: Seq<u8>| bytes@.skip(pos as int)
                    != #[trigger] (w.encoding() + tail) by {
                    assert(w.encoding() == w.0@);
                    assert(bytes@.skip(pos as int).len() < 20);
                    assert((w.encoding() + tail).len() >= 20);
                }
                None
            },
        }
    }
}

impl Decode for ObjectDigest {
    open spec fn is_readable(&self) -> bool {
        true
    }

    proof fn lemma_split(a: Self, b: Self, ra: Seq<u8>, rb: Seq<u8>) {
        assert(a.encoding() == a.0@ && b.encoding() == b.0@);
        lemma_same_length_split(a.0@, b.0@, ra, rb);
    }

    fn decode(bytes: &[u8], pos: usize) -> (r: Option<(Self, usize)>) {
        match read_array::<32>(bytes, pos) {
            Some((a, next)) => {
                let v = ObjectDigest(a);
                assert(v.encoding() == a@);
                assert(v.is_readable());
                Some((v, next))
            },
            None => {
                assert forall|w: ObjectDigest, tail: Seq<u8>| bytes@.skip(pos as int)
                    != #[trigger] (w.encoding() + tail) by {
                    assert(w.encoding() == w.0@);
                    assert(bytes@.skip(pos as int).len() < 32);
                    assert((w.encoding() + tail).len() >= 32);
                }
                None
            },
        }
    }
}

impl Decode for TransactionDigest {
    open spec fn is_readable(&self) -> bool {
        true
    }

    proof fn lemma_split(a: Self, b: Self, ra: Seq<u8>, rb: Seq<u8>) {
        assert(a.encoding() == a.0@ && b.encoding() == b.0@);
        lemma_same_length_split(a.0@, b.0@, ra, rb);
    }

    fn decode(bytes: &[u8], pos: usize) -> (r: Option<(Self, usize)>) {
        match read_array::<32>(bytes, pos) {
            Some((a, next)) => {
                let v = TransactionDigest(a);
                assert(v.encoding() == a@);
                assert(v.is_readable());
                Some((v, next))
            },
            None => {
                assert forall|w: TransactionDigest, tail: Seq<u8>| bytes@.skip(pos as int)
                    != #[trigger] (w.encoding() + tail) by {
                    assert(w.encoding() == w.0@);
                    assert(bytes@.skip(pos as int).len() < 32);
                    assert((w.encoding() + tail).len() >= 32);
                }
                None
            },
        }
    }
}

impl Encode for AccountAddress {
    open spec fn encoding(&self) -> Seq<u8> {
        self.0@
    }

    fn encode(&self, out: &mut Vec<u8>) {
        assert(self.encoding() == self.0@);
        let bytes = self.0.as_slice();
        assert(bytes@ == self.encoding());
        write_raw(out, bytes);
    }
}

impl Decode for AccountAddress {
    open spec fn is_readable(&self) -> bool {
        true
    }

    proof fn lemma_split(a: Self, b: Self, ra: Seq<u8>, rb: Seq<u8>) {
        assert(a.encoding() == a.0@ && b.encoding() == b.0@);
        lemma_same_length_split(a.0@, b.0@, ra, rb);
    }

    fn decode(bytes: &[u8], pos: usize) -> (r: Option<(Self, usize)>) {
        match read_array::<20>(bytes, pos) {
            Some((a, next)) => {
                let v = AccountAddress(a);
                assert(v.encoding() == a@);
                assert(v.is_readable());
                Some((v, next))
            },
            None => {
                assert forall|w: AccountAddress, tail: Seq<u8>| bytes@.skip(pos as int)
                    != #[trigger] (w.encoding() + tail) by {
                    assert(w.encoding() == w.0@);
                    assert(bytes@.skip(pos as int).len() < 20);
                    assert((w.encoding() + tail).len() >= 20);
                }
                None
            },
        }
    }
}

impl Encode for AuthorityName {
    open spec fn encoding(&self) -> Seq<u8> {
        self.0@
    }

    fn encode(&self, out: &mut Vec<u8>) {
        assert(self.encoding() == self.0@);
        let bytes = self.0.as_slice();
        assert(bytes@ == self.encoding());
        write_raw(out, bytes);
    }
}

impl Decode for AuthorityName {
    open spec fn is_readable(&self) -> bool {
        true
    }

    proof fn lemma_split(a: Self, b: Self, ra: Seq<u8>, rb: Seq<u8>) {
        assert(a.encoding() == a.0@ && b.encoding() == b.0@);
        lemma_same_length_split(a.0@, b.0@, ra, rb);
    }

    fn decode(bytes: &[u8], pos: usize) -> (r: Option<(Self, usize)>) {
        match read_array::<96>(bytes, pos) {
            Some((a, next)) => {
                let v = AuthorityName(a);
                assert(v.encoding() == a@);
                assert(v.is_readable());
                Some((v, next))
            },
            None => {
                assert forall|w: AuthorityName, tail: Seq<u8>| bytes@.skip(pos as int)
                    != #[trigger] (w.encoding() + tail) by {
                    assert(w.encoding() == w.0@);
                    assert(bytes@.skip(pos as int).len() < 96);
                    assert((w.encoding() + tail).len() >= 96);
                }
                None
            },
        }
    }
}

impl Encode for Signature {
    open spec fn encoding(&self) -> Seq<u8> {
        self.0@
    }

    fn encode(&self, out: &mut Vec<u8>) {
        assert(self.encoding() == self.0@);
        let bytes = self.0.as_slice();
        assert(bytes@ == self.encoding());
        write_raw(out, bytes);
    }
}

impl Decode for Signature {
    open spec fn is_readable(&self) -> bool {
        true
    }

    proof fn lemma_split(a: Self, b: Self, ra: Seq<u8>, rb: Seq<u8>) {
        assert(a.encoding() == a.0@ && b.encoding() == b.0@);
        lemma_same_length_split(a.0@, b.0@, ra, rb);
    }

    fn decode(bytes: &[u8], pos: usize) -> (r: Option<(Self, usize)>) {
        match read_array::<97>(bytes, pos) {
            Some((a, next)) => {
                let v = Signature(a);
                assert(v.encoding() == a@);
                assert(v.is_readable());
                Some((v, next))
            },
            None => {
                assert forall|w: Signature, tail: Seq<u8>| bytes@.skip(pos as int)
                    != #[trigger] (w.encoding() + tail) by {
                    assert(w.encoding() == w.0@);
                    assert(bytes@.skip(pos as int).len() < 97);
                    assert((w.encoding() + tail).len() >= 97);
                }
                None
            },
        }
    }
}

impl Encode for AuthoritySignature {
    open spec fn encoding(&self) -> Seq<u8> {
        self.0@
    }

    fn encode(&self, out: &mut Vec<u8>) {
        assert(self.encoding() == self.0@);
        let bytes = self.0.as_slice();
        assert(bytes@ == self.encoding());
        write_raw(out, bytes);
    }
}

impl Decode for AuthoritySignature {
    open spec fn is_readable(&self) -> bool {
        true
    }

    proof fn lemma_split(a: Self, b: Self, ra: Seq<u8>, rb: Seq<u8>) {
        assert(a.encoding() == a.0@ && b.encoding() == b.0@);
        lemma_same_length_split(a.0@, b.0@, ra, rb);
    }

    fn decode(bytes: &[u8], pos: usize) -> (r: Option<(Self, usize)>) {
        match read_array::<48>(bytes, pos) {
            Some((a, next)) => {
                let v = AuthoritySignature(a);
                assert(v.encoding() == a@);
                assert(v.is_readable());
                Some((v, next))
            },
            None => {
                assert forall|w: AuthoritySignature, tail: Seq<u8>| bytes@.skip(pos as int)
                    != #[trigger] (w.encoding() + tail) by {
                    assert(w.encoding() == w.0@);
                    assert(bytes@.skip(pos as int).len() < 48);
                    assert((w.encoding() + tail).len() >= 48);
                }
                None
            },
        }
    }
}

impl Encode for AggregateAuthoritySignature {
    open spec fn encoding(&self) -> Seq<u8> {
        self.0@
    }

    fn encode(&self, out: &mut Vec<u8>) {
        assert(self.encoding() == self.0@);
        let bytes = self.0.as_slice();
        assert(bytes@ == self.encoding());
        write_raw(out, bytes);
    }
}

impl Decode for AggregateAuthoritySignature {
    open spec fn is_readable(&self) -> bool {
        true
    }

    proof fn lemma_split(a: Self, b: Self, ra: Seq<u8>, rb: Seq<u8>) {
        assert(a.encoding() == a.0@ && b.encoding() == b.0@);
        lemma_same_length_split(a.0@, b.0@, ra, rb);
    }

    fn decode(bytes: &[u8], pos: usize) -> (r: Option<(Self, usize)>) {
        match read_array::<48>(bytes, pos) {
            Some((a, next)) => {
                let v = AggregateAuthoritySignature(a);
                assert(v.encoding() == a@);
                assert(v.is_readable());
                Some((v, next))
            },
            None => {
                assert forall|w: AggregateAuthoritySignature,
                    tail: Seq<u8>| bytes@.skip(pos as int) != #[trigger] (w.encoding() + tail) by {
                    assert(w.encoding() == w.0@);
                    assert(bytes@.skip(pos as int).len() < 48);
                    assert((w.encoding() + tail).len() >= 48);
                }
                None
            },
        }
    }
}

} // verus!
