//! The encoding of what authorities add to a message that they sign, written and read
//! back: nothing, the signature of one authority, or that of a quorum.

use crate::codec::{lemma_concat_encodings, u64_le, write_raw, write_u64, Encode};
use crate::crypto::AggregateAuthoritySignature;
use crate::envelope_wire::{encode_signers, members_of};
use crate::framing::{lemma_cancel_tail, lemma_regroup, lemma_seq_split, lemma_u64_unambiguous};
use crate::quorum::AuthorityStrongQuorumSignInfo;
use crate::reading::{lemma_join, lemma_skip_splits, Decode};
use crate::reading_certificate::{
    lemma_members_below_increasing, read_numbers, signers_from_list,
};
use crate::reading_kinds::{lemma_vec_split, vec_encoding};
use crate::sign_info::{bitmap_members, EmptySignInfo};
use roaring::RoaringBitmap;
use vstd::prelude::*;

verus! {

impl Encode for EmptySignInfo {
    open spec fn encoding(&self) -> Seq<u8> {
        Seq::empty()
    }

    fn encode(&self, out: &mut Vec<u8>) {
        assert(self.encoding() == Seq::<u8>::empty());
        assert(out@ =~= out@ + Seq::<u8>::empty());
    }
}

impl Decode for EmptySignInfo {
    open spec fn is_readable(&self) -> bool {
        true
    }

    proof fn lemma_split(a: Self, b: Self, ra: Seq<u8>, rb: Seq<u8>) {
        assert(a.encoding() == Seq::<u8>::empty());
        assert(b.encoding() == Seq::<u8>::empty());
        assert(a.encoding() + ra =~= ra);
        assert(b.encoding() + rb =~= rb);
    }

    fn decode(bytes: &[u8], pos: usize) -> (r: Option<(Self, usize)>) {
        let v = EmptySignInfo {  };
        assert(v.encoding() == Seq::<u8>::empty());
        assert(bytes@.subrange(pos as int, pos as int) =~= Seq::<u8>::empty());
        assert(v.is_readable());
        Some((v, pos))
    }
}

/// Lists of numbers behind their lengths that give the same bytes are the same list.
pub proof fn lemma_numbers_split(a: Seq<u64>, b: Seq<u64>, ra: Seq<u8>, rb: Seq<u8>)
    requires
        vec_encoding(a) + ra == vec_encoding(b) + rb,
    ensures
        a == b,
        ra == rb,
{
    lemma_concat_encodings(a, |x: u64| u64_le(x));
    lemma_concat_encodings(b, |x: u64| u64_le(x));
    lemma_u64_unambiguous();
    lemma_seq_split(a, b, ra, rb, |x: u64| u64_le(x));
}

/// Reads a set of signers: the list of its numbers, in increasing order, behind its
/// length.
pub fn read_signers(bytes: &[u8], pos: usize) -> (r: Option<(RoaringBitmap, usize)>)
    requires
        pos <= bytes@.len(),
    ensures
        r matches Some((map, next)) ==> pos <= next <= bytes@.len()
            && bytes@.subrange(pos as int, next as int)
            == vec_encoding(members_of(bitmap_members(map))),
        r is None ==> forall|set: Set<u32>, tail: Seq<u8>|
            bytes@.skip(pos as int) != #[trigger] (vec_encoding(members_of(set)) + tail),
{
    let (list, next) = match read_numbers(bytes, pos) {
        Some(found) => found,
        None => {
            return None;
        },
    };
    match signers_from_list(&list) {
        Some(map) => Some((map, next)),
        None => {
            assert forall|set: Set<u32>, tail: Seq<u8>|
                bytes@.skip(pos as int) != #[trigger] (vec_encoding(members_of(set)) + tail) by {
                if bytes@.skip(pos as int) == vec_encoding(members_of(set)) + tail {
                    lemma_skip_splits(bytes@, pos as int, next as int);
                    lemma_numbers_split(list@, members_of(set), bytes@.skip(next as int), tail);
                    lemma_members_below_increasing(set, 0x1_0000_0000);
                }
            }
            None
        },
    }
}

/// The encoding of what a quorum adds, followed by anything, is its parts one after the
/// other, followed by the same.
pub proof fn lemma_parts_of_quorum_info(w: AuthorityStrongQuorumSignInfo, tail: Seq<u8>)
    ensures
        w.encoding() == w.epoch.encoding()
            + (w.signature.encoding() + vec_encoding(members_of(w.signers()))),
        w.encoding() + tail == w.epoch.encoding()
            + (w.signature.encoding() + (vec_encoding(members_of(w.signers())) + tail)),
{
    lemma_regroup(w.signature.encoding(), vec_encoding(members_of(w.signers())), tail);
    lemma_regroup(
        w.epoch.encoding(),
        w.signature.encoding() + vec_encoding(members_of(w.signers())),
        tail,
    );
}

impl Encode for AuthorityStrongQuorumSignInfo {
    /// The epoch, the aggregate signature, and the positions of the signers in
    /// increasing order.
    open spec fn encoding(&self) -> Seq<u8> {
        self.epoch.encoding()
            + (self.signature.encoding() + vec_encoding(members_of(self.signers())))
    }

    fn encode(&self, out: &mut Vec<u8>) {
        assert(self.encoding() == self.epoch.encoding()
            + (self.signature.encoding() + vec_encoding(members_of(self.signers()))));
        let ghost s0 = out@;
        write_u64(out, self.epoch);
        let ghost s1 = out@;
        write_raw(out, self.signature.0.as_slice());
        encode_signers(self, out);
        proof {
            lemma_concat_encodings(members_of(self.signers()), |x: u64| u64_le(x));
            assert(self.epoch.encoding() == u64_le(self.epoch));
            assert(self.signature.encoding() == self.signature.0@);
            lemma_regroup(s1, self.signature.encoding(), vec_encoding(members_of(self.signers())));
            lemma_regroup(
                s0,
                self.epoch.encoding(),
                self.signature.encoding() + vec_encoding(members_of(self.signers())),
            );
        }
    }
}

impl Decode for AuthorityStrongQuorumSignInfo {
    open spec fn is_readable(&self) -> bool {
        true
    }

    proof fn lemma_split(a: Self, b: Self, ra: Seq<u8>, rb: Seq<u8>) {
        lemma_parts_of_quorum_info(a, ra);
        lemma_parts_of_quorum_info(b, rb);
        u64::lemma_split(
            a.epoch,
            b.epoch,
            a.signature.encoding() + (vec_encoding(members_of(a.signers())) + ra),
            b.signature.encoding() + (vec_encoding(members_of(b.signers())) + rb),
        );
        AggregateAuthoritySignature::lemma_split(
            a.signature,
            b.signature,
            vec_encoding(members_of(a.signers())) + ra,
            vec_encoding(members_of(b.signers())) + rb,
        );
        lemma_vec_split(members_of(a.signers()), members_of(b.signers()), ra, rb);
        lemma_cancel_tail(a.encoding(), b.encoding(), ra);
    }

    fn decode(bytes: &[u8], pos: usize) -> (r: Option<(Self, usize)>) {
        let ghost at = bytes@.skip(pos as int);
        let (epoch, at1) = match u64::decode(bytes, pos) {
            Some(found) => found,
            None => {
                assert forall|w: Self, tail: Seq<u8>| w.is_readable()
                    implies at != #[trigger] (w.encoding() + tail) by {
                    if at == w.encoding() + tail {
                        lemma_parts_of_quorum_info(w, tail);
                        assert(w.epoch.is_readable());
                    }
                }
                return None;
            },
        };
        proof {
            lemma_skip_splits(bytes@, pos as int, at1 as int);
            assert forall|w: Self, tail: Seq<u8>| at == #[trigger] (w.encoding() + tail)
                implies bytes@.skip(at1 as int) == w.signature.encoding()
                    + (vec_encoding(members_of(w.signers())) + tail) by {
                lemma_parts_of_quorum_info(w, tail);
                u64::lemma_split(
                    epoch,
                    w.epoch,
                    bytes@.skip(at1 as int),
                    w.signature.encoding() + (vec_encoding(members_of(w.signers())) + tail),
                );
            }
        }
        let (signature, at2) = match AggregateAuthoritySignature::decode(bytes, at1) {
            Some(found) => found,
            None => {
                assert forall|w: Self, tail: Seq<u8>| w.is_readable()
                    implies at != #[trigger] (w.encoding() + tail) by {
                    if at == w.encoding() + tail {
                        assert(bytes@.skip(at1 as int) == w.signature.encoding()
                            + (vec_encoding(members_of(w.signers())) + tail));
                        assert(w.signature.is_readable());
                    }
                }
                return None;
            },
        };
        proof {
            lemma_skip_splits(bytes@, at1 as int, at2 as int);
            assert forall|w: Self, tail: Seq<u8>| at == #[trigger] (w.encoding() + tail)
                implies bytes@.skip(at2 as int)
                    == vec_encoding(members_of(w.signers())) + tail by {
                AggregateAuthoritySignature::lemma_split(
                    signature,
                    w.signature,
                    bytes@.skip(at2 as int),
                    vec_encoding(members_of(w.signers())) + tail,
                );
            }
        }
        let (signers_map, at3) = match read_signers(bytes, at2) {
            Some(found) => found,
            None => {
                assert forall|w: Self, tail: Seq<u8>| w.is_readable()
                    implies at != #[trigger] (w.encoding() + tail) by {
                    if at == w.encoding() + tail {
                        assert(bytes@.skip(at2 as int)
                            == vec_encoding(members_of(w.signers())) + tail);
                    }
                }
                return None;
            },
        };
        let v = AuthorityStrongQuorumSignInfo { epoch, signature, signers_map };
        proof {
            lemma_parts_of_quorum_info(v, Seq::empty());
            lemma_join(bytes@, at1 as int, at2 as int, at3 as int);
            lemma_join(bytes@, pos as int, at1 as int, at3 as int);
            assert(v.is_readable());
        }
        Some((v, at3))
    }
}

/// Two encodings of what a quorum adds are the same only where the epoch, the
/// signature and the set of signers are.
pub proof fn lemma_quorum_info_same(
    a: AuthorityStrongQuorumSignInfo,
    b: AuthorityStrongQuorumSignInfo,
)
    requires
        a.encoding() == b.encoding(),
    ensures
        a.epoch == b.epoch,
        a.signature == b.signature,
        a.signers() == b.signers(),
{
    let empty = Seq::<u8>::empty();
    lemma_parts_of_quorum_info(a, empty);
    lemma_parts_of_quorum_info(b, empty);
    crate::framing::lemma_u64_split(
        a.epoch,
        b.epoch,
        a.signature.encoding() + (vec_encoding(members_of(a.signers())) + empty),
        b.signature.encoding() + (vec_encoding(members_of(b.signers())) + empty),
    );
    assert(a.epoch.encoding() == u64_le(a.epoch));
    assert(b.epoch.encoding() == u64_le(b.epoch));
    AggregateAuthoritySignature::lemma_split(
        a.signature,
        b.signature,
        vec_encoding(members_of(a.signers())) + empty,
        vec_encoding(members_of(b.signers())) + empty,
    );
    assert(a.signature.encoding() == a.signature.0@);
    assert(b.signature.encoding() == b.signature.0@);
    assert(a.signature.0 =~= b.signature.0);
    lemma_numbers_split(members_of(a.signers()), members_of(b.signers()), empty, empty);
    crate::envelope_wire::lemma_members_determine(a.signers(), b.signers());
}

} // verus!
