//! The encoding of the checkpoint messages, written and read back.

use crate::checkpoint::{
    enc_proposal, CheckpointFragment, CheckpointProposalSummary, SignedCheckpointProposalSummary,
};
use crate::codec::{bytes_with_len, u64_le, Encode};
use crate::framing::{lemma_cancel_tail, lemma_regroup};
use crate::reading::{decode_all, lemma_join, lemma_skip_splits, Decode};
use crate::sign_info::AuthoritySignInfo;
use vstd::prelude::*;

verus! {

/// The encoding of a value of this type, followed by anything, is its parts one
/// after the other, followed by the same.
pub proof fn lemma_parts_of_proposal(w: CheckpointProposalSummary, tail: Seq<u8>)
    ensures
        w.encoding() == w.sequence_number.encoding() + (w.waypoint.encoding()),
        w.encoding() + tail == w.sequence_number.encoding() + (w.waypoint.encoding() + tail),
{
    assert(w.encoding() == enc_proposal(w));
    assert(w.sequence_number.encoding() == u64_le(w.sequence_number));
    assert(w.waypoint.encoding() == bytes_with_len(w.waypoint@));
    lemma_regroup(w.sequence_number.encoding(), w.waypoint.encoding(), tail);
}

impl Decode for CheckpointProposalSummary {
    open spec fn is_readable(&self) -> bool {
        true
    }

    proof fn lemma_split(a: Self, b: Self, ra: Seq<u8>, rb: Seq<u8>) {
        lemma_parts_of_proposal(a, ra);
        lemma_parts_of_proposal(b, rb);
        u64::lemma_split(a.sequence_number, b.sequence_number, a.waypoint.encoding()
            + ra, b.waypoint.encoding() + rb);
        <Vec<u8>>::lemma_split(a.waypoint, b.waypoint, ra, rb);
        lemma_cancel_tail(a.encoding(), b.encoding(), ra);
    }

    fn decode(bytes: &[u8], pos: usize) -> (r: Option<(Self, usize)>) {
        let ghost at = bytes@.skip(pos as int);
        let (x1, at1) = match u64::decode(bytes, pos) {
            Some(found) => found,
            None => {
                assert forall|w: Self, tail: Seq<u8>| w.is_readable()
                    implies at != #[trigger] (w.encoding() + tail) by {
                    if at == w.encoding() + tail {
                        lemma_parts_of_proposal(w, tail);
                        assert(w.sequence_number.is_readable());
                    }
                }
                return None;
            },
        };
        proof {
            lemma_skip_splits(bytes@, pos as int, at1 as int);
            assert forall|w: Self, tail: Seq<u8>| at == #[trigger] (w.encoding() + tail)
                implies bytes@.skip(at1 as int) == w.waypoint.encoding() + tail by {
                lemma_parts_of_proposal(w, tail);
                u64::lemma_split(x1, w.sequence_number, bytes@.skip(at1 as int),
                    w.waypoint.encoding() + tail);
            }
        }
        let (x2, at2) = match <Vec<u8>>::decode(bytes, at1) {
            Some(found) => found,
            None => {
                assert forall|w: Self, tail: Seq<u8>| w.is_readable()
                    implies at != #[trigger] (w.encoding() + tail) by {
                    if at == w.encoding() + tail {
                        assert(bytes@.skip(at1 as int) == w.waypoint.encoding() + tail);
                        assert(w.waypoint.is_readable());
                    }
                }
                return None;
            },
        };
        proof {
            lemma_skip_splits(bytes@, at1 as int, at2 as int);
        }
        let v = CheckpointProposalSummary { sequence_number: x1, waypoint: x2 };
        proof {
            lemma_parts_of_proposal(v, Seq::empty());
            lemma_join(bytes@, pos as int, at1 as int, at2 as int);
            assert(v.is_readable());
        }
        Some((v, at2))
    }
}

/// The encoding of a value of this type, followed by anything, is its parts one
/// after the other, followed by the same.
pub proof fn lemma_parts_of_signed_proposal(w: SignedCheckpointProposalSummary, tail: Seq<u8>)
    ensures
        w.encoding() == w.summary.encoding() + (w.auth_signature.encoding()),
        w.encoding() + tail == w.summary.encoding() + (w.auth_signature.encoding() + tail),
{
    lemma_regroup(w.summary.encoding(), w.auth_signature.encoding(), tail);
}

impl Encode for SignedCheckpointProposalSummary {
    open spec fn encoding(&self) -> Seq<u8> {
        self.summary.encoding() + (self.auth_signature.encoding())
    }

    fn encode(&self, out: &mut Vec<u8>) {
        assert(self.encoding() == self.summary.encoding() + (self.auth_signature.encoding()));
        let ghost s0 = out@;
        self.summary.encode(out);
        self.auth_signature.encode(out);
        proof {
            lemma_regroup(s0, self.summary.encoding(), self.auth_signature.encoding());
        }
    }
}

impl Decode for SignedCheckpointProposalSummary {
    open spec fn is_readable(&self) -> bool {
        true
    }

    proof fn lemma_split(a: Self, b: Self, ra: Seq<u8>, rb: Seq<u8>) {
        lemma_parts_of_signed_proposal(a, ra);
        lemma_parts_of_signed_proposal(b, rb);
        CheckpointProposalSummary::lemma_split(a.summary, b.summary, a.auth_signature.encoding()
            + ra, b.auth_signature.encoding() + rb);
        AuthoritySignInfo::lemma_split(a.auth_signature, b.auth_signature, ra, rb);
        lemma_cancel_tail(a.encoding(), b.encoding(), ra);
    }

    fn decode(bytes: &[u8], pos: usize) -> (r: Option<(Self, usize)>) {
        let ghost at = bytes@.skip(pos as int);
        let (x1, at1) = match CheckpointProposalSummary::decode(bytes, pos) {
            Some(found) => found,
            None => {
                assert forall|w: Self, tail: Seq<u8>| w.is_readable()
                    implies at != #[trigger] (w.encoding() + tail) by {
                    if at == w.encoding() + tail {
                        lemma_parts_of_signed_proposal(w, tail);
                        assert(w.summary.is_readable());
                    }
                }
                return None;
            },
        };
        proof {
            lemma_skip_splits(bytes@, pos as int, at1 as int);
            assert forall|w: Self, tail: Seq<u8>| at == #[trigger] (w.encoding() + tail)
                implies bytes@.skip(at1 as int) == w.auth_signature.encoding() + tail by {
                lemma_parts_of_signed_proposal(w, tail);
                CheckpointProposalSummary::lemma_split(x1, w.summary, bytes@.skip(at1 as int),
                    w.auth_signature.encoding() + tail);
            }
        }
        let (x2, at2) = match AuthoritySignInfo::decode(bytes, at1) {
            Some(found) => found,
            None => {
                assert forall|w: Self, tail: Seq<u8>| w.is_readable()
                    implies at != #[trigger] (w.encoding() + tail) by {
                    if at == w.encoding() + tail {
                        assert(bytes@.skip(at1 as int) == w.auth_signature.encoding() + tail);
                        assert(w.auth_signature.is_readable());
                    }
                }
                return None;
            },
        };
        proof {
            lemma_skip_splits(bytes@, at1 as int, at2 as int);
        }
        let v = SignedCheckpointProposalSummary { summary: x1, auth_signature: x2 };
        proof {
            lemma_parts_of_signed_proposal(v, Seq::empty());
            lemma_join(bytes@, pos as int, at1 as int, at2 as int);
            assert(v.is_readable());
        }
        Some((v, at2))
    }
}

/// The encoding of a value of this type, followed by anything, is its parts one
/// after the other, followed by the same.
pub proof fn lemma_parts_of_fragment(w: CheckpointFragment, tail: Seq<u8>)
    ensures
        w.encoding() == w.proposer.encoding() + (w.other.encoding() + (w.diff.encoding())),
        w.encoding() + tail
            == w.proposer.encoding() + (w.other.encoding() + (w.diff.encoding() + tail)),
{
    lemma_regroup(w.other.encoding(), w.diff.encoding(), tail);
    lemma_regroup(w.proposer.encoding(), w.other.encoding() + (w.diff.encoding()), tail);
}

impl Encode for CheckpointFragment {
    open spec fn encoding(&self) -> Seq<u8> {
        self.proposer.encoding() + (self.other.encoding() + (self.diff.encoding()))
    }

    fn encode(&self, out: &mut Vec<u8>) {
        assert(self.encoding()
            == self.proposer.encoding() + (self.other.encoding() + (self.diff.encoding())));
        let ghost s0 = out@;
        self.proposer.encode(out);
        let ghost s1 = out@;
        self.other.encode(out);
        self.diff.encode(out);
        proof {
            lemma_regroup(s1, self.other.encoding(), self.diff.encoding());
            lemma_regroup(s0, self.proposer.encoding(), self.other.encoding()
                + (self.diff.encoding()));
        }
    }
}

impl Decode for CheckpointFragment {
    open spec fn is_readable(&self) -> bool {
        true
    }

    proof fn lemma_split(a: Self, b: Self, ra: Seq<u8>, rb: Seq<u8>) {
        lemma_parts_of_fragment(a, ra);
        lemma_parts_of_fragment(b, rb);
        SignedCheckpointProposalSummary::lemma_split(a.proposer, b.proposer, a.other.encoding()
            + (a.diff.encoding() + ra), b.other.encoding() + (b.diff.encoding() + rb));
        SignedCheckpointProposalSummary::lemma_split(a.other, b.other, a.diff.encoding()
            + ra, b.diff.encoding() + rb);
        <Vec<u8>>::lemma_split(a.diff, b.diff, ra, rb);
        lemma_cancel_tail(a.encoding(), b.encoding(), ra);
    }

    fn decode(bytes: &[u8], pos: usize) -> (r: Option<(Self, usize)>) {
        let ghost at = bytes@.skip(pos as int);
        let (x1, at1) = match SignedCheckpointProposalSummary::decode(bytes, pos) {
            Some(found) => found,
            None => {
                assert forall|w: Self, tail: Seq<u8>| w.is_readable()
                    implies at != #[trigger] (w.encoding() + tail) by {
                    if at == w.encoding() + tail {
                        lemma_parts_of_fragment(w, tail);
                        assert(w.proposer.is_readable());
                    }
                }
                return None;
            },
        };
        proof {
            lemma_skip_splits(bytes@, pos as int, at1 as int);
            assert forall|w: Self, tail: Seq<u8>| at == #[trigger] (w.encoding() + tail)
                implies bytes@.skip(at1 as int)
                    == w.other.encoding() + (w.diff.encoding() + tail) by {
                lemma_parts_of_fragment(w, tail);
                SignedCheckpointProposalSummary::lemma_split(x1, w.proposer,
                    bytes@.skip(at1 as int), w.other.encoding() + (w.diff.encoding() + tail));
            }
        }
        let (x2, at2) = match SignedCheckpointProposalSummary::decode(bytes, at1) {
            Some(found) => found,
            None => {
                assert forall|w: Self, tail: Seq<u8>| w.is_readable()
                    implies at != #[trigger] (w.encoding() + tail) by {
                    if at == w.encoding() + tail {
                        assert(bytes@.skip(at1 as int)
                            == w.other.encoding() + (w.diff.encoding() + tail));
                        assert(w.other.is_readable());
                    }
                }
                return None;
            },
        };
        proof {
            lemma_skip_splits(bytes@, at1 as int, at2 as int);
            assert forall|w: Self, tail: Seq<u8>| at == #[trigger] (w.encoding() + tail)
                implies bytes@.skip(at2 as int) == w.diff.encoding() + tail by {
                SignedCheckpointProposalSummary::lemma_split(x2, w.other, bytes@.skip(at2 as int),
                    w.diff.encoding() + tail);
            }
        }
        let (x3, at3) = match <Vec<u8>>::decode(bytes, at2) {
            Some(found) => found,
            None => {
                assert forall|w: Self, tail: Seq<u8>| w.is_readable()
                    implies at != #[trigger] (w.encoding() + tail) by {
                    if at == w.encoding() + tail {
                        assert(bytes@.skip(at2 as int) == w.diff.encoding() + tail);
                        assert(w.diff.is_readable());
                    }
                }
                return None;
            },
        };
        proof {
            lemma_skip_splits(bytes@, at2 as int, at3 as int);
        }
        let v = CheckpointFragment { proposer: x1, other: x2, diff: x3 };
        proof {
            lemma_parts_of_fragment(v, Seq::empty());
            lemma_join(bytes@, at1 as int, at2 as int, at3 as int);
            lemma_join(bytes@, pos as int, at1 as int, at3 as int);
            assert(v.is_readable());
        }
        Some((v, at3))
    }
}

impl CheckpointFragment {
    /// The encoding of the fragment.
    pub fn to_bytes(&self) -> (r: Vec<u8>)
        ensures
            r@ == self.encoding(),
    {
        let mut out: Vec<u8> = Vec::new();
        self.encode(&mut out);
        assert(out@ =~= self.encoding());
        out
    }

    /// The fragment whose encoding `bytes` are. Hands out nothing where they are the
    /// encoding of no fragment.
    pub fn from_bytes(bytes: &[u8]) -> (r: Option<CheckpointFragment>)
        ensures
            r matches Some(v) ==> v.encoding() == bytes@,
            r is None ==> forall|w: CheckpointFragment| #[trigger] w.encoding() != bytes@,
    {
        let r = decode_all::<CheckpointFragment>(bytes);
        assert(r is None ==> forall|w: CheckpointFragment| #[trigger] w.encoding() != bytes@) by {
            if r is None {
                assert forall|w: CheckpointFragment| #[trigger] w.encoding() != bytes@ by {
                    assert(w.is_readable());
                }
            }
        }
        r
    }
}

/// Reading undoes encoding for a fragment: from the encoding of a fragment, every
/// reading that `from_bytes` allows hands out a fragment with that encoding.
pub proof fn lemma_fragment_reads_back(
    x: CheckpointFragment,
    bytes: &[u8],
    r: Option<CheckpointFragment>,
)
    requires
        bytes@ == x.encoding(),
        call_ensures(CheckpointFragment::from_bytes, (bytes,), r),
    ensures
        r matches Some(y) && y.encoding() == x.encoding(),
{
}

} // verus!
