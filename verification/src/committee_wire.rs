//! The encoding of a committee, written and read back: the epoch, then the authorities
//! with their stake, in the order of their names.

use crate::base_types::AuthorityName;
use crate::codec::{encode_vec, uleb128, Encode};
use crate::committee::{Committee, StakeUnit};
use crate::framing::{lemma_cancel_tail, lemma_regroup, lemma_uleb128_split};
use crate::reading::{decode_all, lemma_items_agree, lemma_join, lemma_skip_splits, Decode};
use crate::reading_kinds::{lemma_vec_split, read_vec, vec_encoding};
use vstd::prelude::*;

verus! {

/// The encoding of a value of this type, followed by anything, is its parts one
/// after the other, followed by the same.
pub proof fn lemma_parts_of_member(w: (AuthorityName, StakeUnit), tail: Seq<u8>)
    ensures
        w.encoding() == w.0.encoding() + (w.1.encoding()),
        w.encoding() + tail == w.0.encoding() + (w.1.encoding() + tail),
{
    lemma_regroup(w.0.encoding(), w.1.encoding(), tail);
}

impl Encode for (AuthorityName, StakeUnit) {
    open spec fn encoding(&self) -> Seq<u8> {
        self.0.encoding() + (self.1.encoding())
    }

    fn encode(&self, out: &mut Vec<u8>) {
        assert(self.encoding() == self.0.encoding() + (self.1.encoding()));
        let ghost s0 = out@;
        self.0.encode(out);
        self.1.encode(out);
        proof {
            lemma_regroup(s0, self.0.encoding(), self.1.encoding());
        }
    }
}

impl Decode for (AuthorityName, StakeUnit) {
    open spec fn is_readable(&self) -> bool {
        true
    }

    proof fn lemma_split(a: Self, b: Self, ra: Seq<u8>, rb: Seq<u8>) {
        lemma_parts_of_member(a, ra);
        lemma_parts_of_member(b, rb);
        AuthorityName::lemma_split(a.0, b.0, a.1.encoding() + ra, b.1.encoding() + rb);
        u64::lemma_split(a.1, b.1, ra, rb);
        lemma_cancel_tail(a.encoding(), b.encoding(), ra);
    }

    fn decode(bytes: &[u8], pos: usize) -> (r: Option<(Self, usize)>) {
        let ghost at = bytes@.skip(pos as int);
        let (x1, at1) = match AuthorityName::decode(bytes, pos) {
            Some(found) => found,
            None => {
                assert forall|w: Self, tail: Seq<u8>| w.is_readable()
                    implies at != #[trigger] (w.encoding() + tail) by {
                    if at == w.encoding() + tail {
                        lemma_parts_of_member(w, tail);
                        assert(w.0.is_readable());
                    }
                }
                return None;
            },
        };
        proof {
            lemma_skip_splits(bytes@, pos as int, at1 as int);
            assert forall|w: Self, tail: Seq<u8>| at == #[trigger] (w.encoding() + tail)
                implies bytes@.skip(at1 as int) == w.1.encoding() + tail by {
                lemma_parts_of_member(w, tail);
                AuthorityName::lemma_split(x1, w.0, bytes@.skip(at1 as int), w.1.encoding() + tail);
            }
        }
        let (x2, at2) = match u64::decode(bytes, at1) {
            Some(found) => found,
            None => {
                assert forall|w: Self, tail: Seq<u8>| w.is_readable()
                    implies at != #[trigger] (w.encoding() + tail) by {
                    if at == w.encoding() + tail {
                        assert(bytes@.skip(at1 as int) == w.1.encoding() + tail);
                        assert(w.1.is_readable());
                    }
                }
                return None;
            },
        };
        proof {
            lemma_skip_splits(bytes@, at1 as int, at2 as int);
        }
        let v = (x1, x2);
        proof {
            lemma_parts_of_member(v, Seq::empty());
            lemma_join(bytes@, pos as int, at1 as int, at2 as int);
            assert(v.is_readable());
        }
        Some((v, at2))
    }
}

/// Every authority with its stake can be read back.
pub proof fn lemma_member_readable(a: (AuthorityName, StakeUnit))
    ensures
        a.is_readable(),
{
    assert(a.0.is_readable());
    assert(a.1.is_readable());
}

/// An authority with its stake is told by its encoding.
pub proof fn lemma_member_same(a: (AuthorityName, StakeUnit), b: (AuthorityName, StakeUnit))
    requires
        a.encoding() == b.encoding(),
    ensures
        a == b,
{
    let empty = Seq::<u8>::empty();
    lemma_parts_of_member(a, empty);
    lemma_parts_of_member(b, empty);
    AuthorityName::lemma_split(a.0, b.0, a.1.encoding() + empty, b.1.encoding() + empty);
    assert(a.0.encoding() == a.0.0@);
    assert(b.0.encoding() == b.0.0@);
    assert(a.0.0 =~= b.0.0);
    crate::framing::lemma_u64_split(a.1, b.1, empty, empty);
    assert(a.1.encoding() == crate::codec::u64_le(a.1));
    assert(b.1.encoding() == crate::codec::u64_le(b.1));
}

/// Lists of authorities behind their lengths that give the same bytes are the same list.
pub proof fn lemma_members_split(
    a: Seq<(AuthorityName, StakeUnit)>,
    b: Seq<(AuthorityName, StakeUnit)>,
    ra: Seq<u8>,
    rb: Seq<u8>,
)
    requires
        vec_encoding(a) + ra == vec_encoding(b) + rb,
    ensures
        a == b,
        ra == rb,
{
    lemma_vec_split(a, b, ra, rb);
    lemma_regroup(uleb128(a.len()), crate::codec::concat_encodings(a), ra);
    lemma_regroup(uleb128(b.len()), crate::codec::concat_encodings(b), rb);
    lemma_uleb128_split(
        a.len(),
        b.len(),
        crate::codec::concat_encodings(a) + ra,
        crate::codec::concat_encodings(b) + rb,
    );
    lemma_items_agree(a, b, ra, rb);
    assert forall|i: int| 0 <= i < a.len() implies a[i] == b[i] by {
        lemma_member_same(a[i], b[i]);
    }
    assert(a =~= b);
}

/// The encoding of a committee, followed by anything, is its parts one after the
/// other, followed by the same.
pub proof fn lemma_parts_of_committee(w: Committee, tail: Seq<u8>)
    ensures
        w.encoding() == w.spec_epoch().encoding() + vec_encoding(w.members()),
        w.encoding() + tail == w.spec_epoch().encoding() + (vec_encoding(w.members()) + tail),
{
    lemma_regroup(w.spec_epoch().encoding(), vec_encoding(w.members()), tail);
}

impl Encode for Committee {
    open spec fn encoding(&self) -> Seq<u8> {
        self.spec_epoch().encoding() + vec_encoding(self.members())
    }

    fn encode(&self, out: &mut Vec<u8>) {
        assert(self.encoding() == self.spec_epoch().encoding() + vec_encoding(self.members()));
        let ghost start = out@;
        self.epoch().encode(out);
        encode_vec(self.voting_rights(), out);
        proof {
            lemma_regroup(start, self.spec_epoch().encoding(), vec_encoding(self.members()));
        }
    }
}

impl Decode for Committee {
    /// A committee is read back where it is as `new` makes it.
    open spec fn is_readable(&self) -> bool {
        self.is_well_formed()
    }

    proof fn lemma_split(a: Self, b: Self, ra: Seq<u8>, rb: Seq<u8>) {
        lemma_parts_of_committee(a, ra);
        lemma_parts_of_committee(b, rb);
        u64::lemma_split(
            a.spec_epoch(),
            b.spec_epoch(),
            vec_encoding(a.members()) + ra,
            vec_encoding(b.members()) + rb,
        );
        lemma_vec_split(a.members(), b.members(), ra, rb);
        lemma_cancel_tail(a.encoding(), b.encoding(), ra);
    }

    fn decode(bytes: &[u8], pos: usize) -> (r: Option<(Self, usize)>) {
        let ghost at = bytes@.skip(pos as int);
        let (epoch, at1) = match u64::decode(bytes, pos) {
            Some(found) => found,
            None => {
                assert forall|w: Self, tail: Seq<u8>| w.is_readable()
                    implies at != #[trigger] (w.encoding() + tail) by {
                    if at == w.encoding() + tail {
                        lemma_parts_of_committee(w, tail);
                        assert(w.spec_epoch().is_readable());
                    }
                }
                return None;
            },
        };
        proof {
            lemma_skip_splits(bytes@, pos as int, at1 as int);
            assert forall|w: Self, tail: Seq<u8>| at == #[trigger] (w.encoding() + tail)
                implies w.spec_epoch() == epoch
                    && bytes@.skip(at1 as int) == vec_encoding(w.members()) + tail by {
                lemma_parts_of_committee(w, tail);
                u64::lemma_split(
                    epoch,
                    w.spec_epoch(),
                    bytes@.skip(at1 as int),
                    vec_encoding(w.members()) + tail,
                );
                crate::framing::lemma_u64_split(
                    epoch,
                    w.spec_epoch(),
                    bytes@.skip(at1 as int),
                    vec_encoding(w.members()) + tail,
                );
                assert(epoch.encoding() == crate::codec::u64_le(epoch));
                assert(w.spec_epoch().encoding() == crate::codec::u64_le(w.spec_epoch()));
            }
        }
        let (list, at2) = match read_vec::<(AuthorityName, StakeUnit)>(bytes, at1) {
            Some(found) => found,
            None => {
                assert forall|w: Self, tail: Seq<u8>| w.is_readable()
                    implies at != #[trigger] (w.encoding() + tail) by {
                    if at == w.encoding() + tail {
                        assert(bytes@.skip(at1 as int) == vec_encoding(w.members()) + tail);
                        assert(w.members().len() <= usize::MAX);
                        assert(crate::reading::all_readable(w.members())) by {
                            assert forall|i: int| 0 <= i < w.members().len()
                                implies (#[trigger] w.members()[i]).is_readable() by {
                                lemma_member_readable(w.members()[i]);
                            }
                        }
                    }
                }
                return None;
            },
        };
        proof {
            lemma_skip_splits(bytes@, at1 as int, at2 as int);
            assert forall|w: Self, tail: Seq<u8>| at == #[trigger] (w.encoding() + tail)
                implies w.members() == list@ by {
                lemma_members_split(list@, w.members(), bytes@.skip(at2 as int), tail);
            }
        }
        let ghost members = list@;
        match Committee::from_ordered(epoch, list) {
            Some(v) => {
                proof {
                    lemma_parts_of_committee(v, Seq::empty());
                    lemma_join(bytes@, pos as int, at1 as int, at2 as int);
                    assert(v.is_readable());
                }
                Some((v, at2))
            },
            None => {
                assert forall|w: Self, tail: Seq<u8>| w.is_readable()
                    implies at != #[trigger] (w.encoding() + tail) by {
                    if at == w.encoding() + tail {
                        assert(w.members() == members);
                        assert(w.is_well_formed());
                    }
                }
                None
            },
        }
    }
}

impl Committee {
    /// The encoding of the committee.
    pub fn to_bytes(&self) -> (r: Vec<u8>)
        ensures
            r@ == self.encoding(),
    {
        let mut out: Vec<u8> = Vec::new();
        self.encode(&mut out);
        assert(out@ =~= self.encoding());
        out
    }

    /// The committee whose encoding `bytes` are. Hands out nothing where they are the
    /// encoding of no committee.
    pub fn from_bytes(bytes: &[u8]) -> (r: Option<Committee>)
        ensures
            r matches Some(v) ==> v.encoding() == bytes@ && v.is_well_formed(),
            r is None ==> forall|w: Committee|
                w.is_well_formed() ==> #[trigger] w.encoding() != bytes@,
    {
        decode_all::<Committee>(bytes)
    }
}

/// Reading undoes encoding for a committee: from the encoding of a committee, every
/// reading that `from_bytes` allows hands out a committee of the same epoch with the
/// same authorities and stakes.
pub proof fn lemma_committee_reads_back(x: Committee, bytes: &[u8], r: Option<Committee>)
    requires
        x.is_well_formed(),
        bytes@ == x.encoding(),
        call_ensures(Committee::from_bytes, (bytes,), r),
    ensures
        r matches Some(y) && y.spec_epoch() == x.spec_epoch() && y.members() == x.members(),
{
    let y = r->0;
    let empty = Seq::<u8>::empty();
    lemma_parts_of_committee(x, empty);
    lemma_parts_of_committee(y, empty);
    crate::framing::lemma_u64_split(
        y.spec_epoch(),
        x.spec_epoch(),
        vec_encoding(y.members()) + empty,
        vec_encoding(x.members()) + empty,
    );
    assert(x.spec_epoch().encoding() == crate::codec::u64_le(x.spec_epoch()));
    assert(y.spec_epoch().encoding() == crate::codec::u64_le(y.spec_epoch()));
    lemma_members_split(y.members(), x.members(), empty, empty);
}

} // verus!
