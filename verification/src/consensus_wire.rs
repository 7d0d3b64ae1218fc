//! The encoding of the messages to consensus, written and read back: the tracking id,
//! the index of what the message carries, and the certificate or the fragment.

use crate::checkpoint::CheckpointFragment;
use crate::codec::{variant_tag, write_raw, write_tag, Encode};
use crate::consensus::{ConsensusTransaction, ConsensusTransactionKind};
use crate::envelope::TransactionEnvelope;
use crate::framing::{lemma_cancel_tail, lemma_regroup, lemma_same_length_split};
use crate::quorum::AuthorityStrongQuorumSignInfo;
use crate::reading::{decode_all, lemma_join, lemma_skip_splits, read_tag, Decode};
use crate::reading_base::read_array;
use crate::wire_laws::lemma_tag_split;
use vstd::prelude::*;

verus! {

impl Encode for [u8; 8] {
    open spec fn encoding(&self) -> Seq<u8> {
        self@
    }

    fn encode(&self, out: &mut Vec<u8>) {
        assert(self.encoding() == self@);
        write_raw(out, self.as_slice());
    }
}

impl Decode for [u8; 8] {
    open spec fn is_readable(&self) -> bool {
        true
    }

    proof fn lemma_split(a: Self, b: Self, ra: Seq<u8>, rb: Seq<u8>) {
        assert(a.encoding() == a@ && b.encoding() == b@);
        lemma_same_length_split(a@, b@, ra, rb);
    }

    fn decode(bytes: &[u8], pos: usize) -> (r: Option<(Self, usize)>) {
        match read_array::<8>(bytes, pos) {
            Some((v, next)) => {
                assert(v.encoding() == v@);
                assert(v.is_readable());
                Some((v, next))
            },
            None => {
                assert forall|w: [u8; 8], tail: Seq<u8>|
                    bytes@.skip(pos as int) != #[trigger] (w.encoding() + tail) by {
                    assert(w.encoding() == w@);
                    assert(bytes@.skip(pos as int).len() < 8);
                    assert((w.encoding() + tail).len() >= 8);
                }
                None
            },
        }
    }
}

/// The index of the variant of `w`.
pub open spec fn message_kind_index(w: ConsensusTransactionKind) -> u8 {
    match w {
        ConsensusTransactionKind::UserTransaction(_) => 0,
        ConsensusTransactionKind::Checkpoint(_) => 1,
    }
}

/// The encoding of what the variant of `w` carries.
pub open spec fn message_kind_payload(w: ConsensusTransactionKind) -> Seq<u8> {
    match w {
        ConsensusTransactionKind::UserTransaction(inner) => (*inner).encoding(),
        ConsensusTransactionKind::Checkpoint(inner) => (*inner).encoding(),
    }
}

impl Encode for ConsensusTransactionKind {
    open spec fn encoding(&self) -> Seq<u8> {
        variant_tag(message_kind_index(*self)) + message_kind_payload(*self)
    }

    fn encode(&self, out: &mut Vec<u8>) {
        assert(self.encoding()
            == variant_tag(message_kind_index(*self)) + message_kind_payload(*self));
        let ghost start = out@;
        match self {
            ConsensusTransactionKind::UserTransaction(x) => {
                write_tag(out, 0);
                x.encode(out);
                assert((**x).encoding() == x.encoding());
            },
            ConsensusTransactionKind::Checkpoint(x) => {
                write_tag(out, 1);
                x.encode(out);
                assert((**x).encoding() == x.encoding());
            },
        }
        assert(out@ =~= start
            + (variant_tag(message_kind_index(*self)) + message_kind_payload(*self)));
    }
}

impl Decode for ConsensusTransactionKind {
    open spec fn is_readable(&self) -> bool {
        (*self matches ConsensusTransactionKind::UserTransaction(inner) ==>
            (*inner).is_readable())
            && (*self matches ConsensusTransactionKind::Checkpoint(inner) ==>
            (*inner).is_readable())
    }

    proof fn lemma_split(a: Self, b: Self, ra: Seq<u8>, rb: Seq<u8>) {
        assert(a.encoding() == variant_tag(message_kind_index(a)) + message_kind_payload(a));
        assert(b.encoding() == variant_tag(message_kind_index(b)) + message_kind_payload(b));
        lemma_regroup(variant_tag(message_kind_index(a)), message_kind_payload(a), ra);
        lemma_regroup(variant_tag(message_kind_index(b)), message_kind_payload(b), rb);
        lemma_tag_split(message_kind_index(a), message_kind_index(b), message_kind_payload(a)
            + ra, message_kind_payload(b) + rb);
        match (a, b) {
            (ConsensusTransactionKind::UserTransaction(x_v),
                ConsensusTransactionKind::UserTransaction(y_v)) => {
                <TransactionEnvelope<AuthorityStrongQuorumSignInfo>>::lemma_split(*x_v, *y_v, ra,
                    rb);
            },
            (ConsensusTransactionKind::Checkpoint(x_v),
                ConsensusTransactionKind::Checkpoint(y_v)) => {
                CheckpointFragment::lemma_split(*x_v, *y_v, ra, rb);
            },
            _ => {
                lemma_same_length_split(message_kind_payload(a), message_kind_payload(b), ra, rb);
            },
        }
        lemma_cancel_tail(a.encoding(), b.encoding(), ra);
    }

    fn decode(bytes: &[u8], pos: usize) -> (r: Option<(Self, usize)>) {
        let ghost at = bytes@.skip(pos as int);
        let (tag, at1) = match read_tag(bytes, pos) {
            Some(found) => found,
            None => {
                assert forall|w: Self, tail: Seq<u8>| at != #[trigger] (w.encoding() + tail) by {
                    assert(w.encoding()
                        == variant_tag(message_kind_index(w)) + message_kind_payload(w));
                    assert(at.len() == 0);
                    assert((w.encoding() + tail).len() > 0);
                }
                return None;
            },
        };
        proof {
            lemma_skip_splits(bytes@, pos as int, at1 as int);
            assert(bytes@.subrange(pos as int, at1 as int) =~= variant_tag(tag));
            assert forall|w: Self, tail: Seq<u8>| at == #[trigger] (w.encoding() + tail)
                implies message_kind_index(w) == tag
                    && bytes@.skip(at1 as int) == message_kind_payload(w) + tail by {
                assert(w.encoding()
                    == variant_tag(message_kind_index(w)) + message_kind_payload(w));
                lemma_regroup(variant_tag(message_kind_index(w)), message_kind_payload(w), tail);
                lemma_tag_split(tag, message_kind_index(w), bytes@.skip(at1 as int),
                    message_kind_payload(w) + tail);
            }
        }
        if tag == 0 {
            match <TransactionEnvelope<AuthorityStrongQuorumSignInfo>>::decode(bytes, at1) {
                Some((x, at2)) => {
                    let ghost held = x.encoding();
                    let v = ConsensusTransactionKind::UserTransaction(Box::new(x));
                    proof {
                        lemma_join(bytes@, pos as int, at1 as int, at2 as int);
                        assert(message_kind_payload(v) == held);
                        assert(v.encoding() == variant_tag(0) + held);
                        assert(v.is_readable());
                    }
                    Some((v, at2))
                },
                None => {
                    assert forall|w: Self, tail: Seq<u8>| w.is_readable() implies at
                        != #[trigger] (w.encoding() + tail) by {
                        if at == w.encoding() + tail {
                            let x = *(w->UserTransaction_0);
                            assert(x.is_readable());
                            assert(bytes@.skip(at1 as int) == x.encoding() + tail);
                        }
                    }
                    None
                },
            }
        } else if tag == 1 {
            match CheckpointFragment::decode(bytes, at1) {
                Some((x, at2)) => {
                    let ghost held = x.encoding();
                    let v = ConsensusTransactionKind::Checkpoint(Box::new(x));
                    proof {
                        lemma_join(bytes@, pos as int, at1 as int, at2 as int);
                        assert(message_kind_payload(v) == held);
                        assert(v.encoding() == variant_tag(1) + held);
                        assert(v.is_readable());
                    }
                    Some((v, at2))
                },
                None => {
                    assert forall|w: Self, tail: Seq<u8>| w.is_readable() implies at
                        != #[trigger] (w.encoding() + tail) by {
                        if at == w.encoding() + tail {
                            let x = *(w->Checkpoint_0);
                            assert(x.is_readable());
                            assert(bytes@.skip(at1 as int) == x.encoding() + tail);
                        }
                    }
                    None
                },
            }
        } else {
            None
        }
    }
}

/// The encoding of a value of this type, followed by anything, is its parts one
/// after the other, followed by the same.
pub proof fn lemma_parts_of_message(w: ConsensusTransaction, tail: Seq<u8>)
    ensures
        w.encoding() == w.tracking_id.encoding() + (w.kind.encoding()),
        w.encoding() + tail == w.tracking_id.encoding() + (w.kind.encoding() + tail),
{
    lemma_regroup(w.tracking_id.encoding(), w.kind.encoding(), tail);
}

impl Encode for ConsensusTransaction {
    open spec fn encoding(&self) -> Seq<u8> {
        self.tracking_id.encoding() + (self.kind.encoding())
    }

    fn encode(&self, out: &mut Vec<u8>) {
        assert(self.encoding() == self.tracking_id.encoding() + (self.kind.encoding()));
        let ghost s0 = out@;
        self.tracking_id.encode(out);
        self.kind.encode(out);
        proof {
            lemma_regroup(s0, self.tracking_id.encoding(), self.kind.encoding());
        }
    }
}

impl Decode for ConsensusTransaction {
    open spec fn is_readable(&self) -> bool {
        self.kind.is_readable()
    }

    proof fn lemma_split(a: Self, b: Self, ra: Seq<u8>, rb: Seq<u8>) {
        lemma_parts_of_message(a, ra);
        lemma_parts_of_message(b, rb);
        <[u8; 8]>::lemma_split(a.tracking_id, b.tracking_id, a.kind.encoding()
            + ra, b.kind.encoding() + rb);
        ConsensusTransactionKind::lemma_split(a.kind, b.kind, ra, rb);
        lemma_cancel_tail(a.encoding(), b.encoding(), ra);
    }

    fn decode(bytes: &[u8], pos: usize) -> (r: Option<(Self, usize)>) {
        let ghost at = bytes@.skip(pos as int);
        let (x1, at1) = match <[u8; 8]>::decode(bytes, pos) {
            Some(found) => found,
            None => {
                assert forall|w: Self, tail: Seq<u8>| w.is_readable()
                    implies at != #[trigger] (w.encoding() + tail) by {
                    if at == w.encoding() + tail {
                        lemma_parts_of_message(w, tail);
                        assert(w.tracking_id.is_readable());
                    }
                }
                return None;
            },
        };
        proof {
            lemma_skip_splits(bytes@, pos as int, at1 as int);
            assert forall|w: Self, tail: Seq<u8>| at == #[trigger] (w.encoding() + tail)
                implies bytes@.skip(at1 as int) == w.kind.encoding() + tail by {
                lemma_parts_of_message(w, tail);
                <[u8; 8]>::lemma_split(x1, w.tracking_id, bytes@.skip(at1 as int),
                    w.kind.encoding() + tail);
            }
        }
        let (x2, at2) = match ConsensusTransactionKind::decode(bytes, at1) {
            Some(found) => found,
            None => {
                assert forall|w: Self, tail: Seq<u8>| w.is_readable()
                    implies at != #[trigger] (w.encoding() + tail) by {
                    if at == w.encoding() + tail {
                        assert(bytes@.skip(at1 as int) == w.kind.encoding() + tail);
                        assert(w.kind.is_readable());
                    }
                }
                return None;
            },
        };
        proof {
            lemma_skip_splits(bytes@, at1 as int, at2 as int);
        }
        let v = ConsensusTransaction { tracking_id: x1, kind: x2 };
        proof {
            lemma_parts_of_message(v, Seq::empty());
            lemma_join(bytes@, pos as int, at1 as int, at2 as int);
            assert(v.is_readable());
        }
        Some((v, at2))
    }
}

impl ConsensusTransaction {
    /// The encoding of the message.
    pub fn to_bytes(&self) -> (r: Vec<u8>)
        ensures
            r@ == self.encoding(),
    {
        let mut out: Vec<u8> = Vec::new();
        self.encode(&mut out);
        assert(out@ =~= self.encoding());
        out
    }

    /// The message whose encoding `bytes` are. Hands out nothing where they are the
    /// encoding of no message that can be read.
    pub fn from_bytes(bytes: &[u8]) -> (r: Option<ConsensusTransaction>)
        ensures
            r matches Some(v) ==> v.encoding() == bytes@ && v.is_readable(),
            r is None ==> forall|w: ConsensusTransaction|
                w.is_readable() ==> #[trigger] w.encoding() != bytes@,
    {
        decode_all::<ConsensusTransaction>(bytes)
    }
}

/// Reading undoes encoding for a message to consensus: from the encoding of a message
/// that can be read, every reading that `from_bytes` allows hands out a message with
/// the same tracking id that carries the same, as far as it is encoded.
pub proof fn lemma_message_reads_back(
    x: ConsensusTransaction,
    bytes: &[u8],
    r: Option<ConsensusTransaction>,
)
    requires
        x.is_readable(),
        bytes@ == x.encoding(),
        call_ensures(ConsensusTransaction::from_bytes, (bytes,), r),
    ensures
        r matches Some(y) && y.tracking_id == x.tracking_id
            && y.kind.encoding() == x.kind.encoding(),
{
    let y = r->0;
    let empty = Seq::<u8>::empty();
    lemma_parts_of_message(x, empty);
    lemma_parts_of_message(y, empty);
    <[u8; 8]>::lemma_split(
        y.tracking_id,
        x.tracking_id,
        y.kind.encoding() + empty,
        x.kind.encoding() + empty,
    );
    assert(y.tracking_id.encoding() == y.tracking_id@);
    assert(x.tracking_id.encoding() == x.tracking_id@);
    assert(y.tracking_id =~= x.tracking_id);
    lemma_cancel_tail(y.kind.encoding(), x.kind.encoding(), empty);
}

} // verus!
