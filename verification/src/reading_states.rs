//! The three states of a transaction as values with an encoding that can be read back
//! wherever it stands: the index of the state, the sender-signed data, and what the
//! authorities added.

use crate::codec::{variant_tag, write_tag, Encode};
use crate::envelope::{SenderSignedData, TransactionEnvelope};
use crate::envelope_wire::{enc_certificate, enc_signed_transaction, enc_transaction};
use crate::framing::lemma_regroup;
use crate::quorum::AuthorityStrongQuorumSignInfo;
use crate::quorum_wire::lemma_parts_of_quorum_info;
use crate::reading::{lemma_join, lemma_skip_splits, read_tag, Decode};
use crate::reading_certificate::lemma_certificate_parts;
use crate::reading_envelope::enc_authority_info;
use crate::sign_info::{AuthoritySignInfo, EmptySignInfo};
use crate::wire_laws::lemma_tag_split;
use vstd::prelude::*;

verus! {

/// The encoding of an envelope in the state with the index `state`.
pub open spec fn enc_envelope<S: Encode>(state: u8, w: TransactionEnvelope<S>) -> Seq<u8> {
    variant_tag(state) + (w.signed().encoding() + w.auth().encoding())
}

/// Whether an envelope is one that a reader hands out.
pub open spec fn envelope_readable<S: Decode>(w: TransactionEnvelope<S>) -> bool {
    w.signed().is_readable() && w.auth().is_readable()
}

/// Envelopes of one state that, followed by anything, give the same bytes have the same
/// encoding, part by part, followed by the same.
pub proof fn lemma_envelope_split<S: Decode>(
    state: u8,
    a: TransactionEnvelope<S>,
    b: TransactionEnvelope<S>,
    ra: Seq<u8>,
    rb: Seq<u8>,
)
    requires
        enc_envelope(state, a) + ra == enc_envelope(state, b) + rb,
    ensures
        a.signed().encoding() == b.signed().encoding(),
        a.auth().encoding() == b.auth().encoding(),
        enc_envelope(state, a) == enc_envelope(state, b),
        ra == rb,
{
    let ta = a.signed().encoding() + (a.auth().encoding() + ra);
    let tb = b.signed().encoding() + (b.auth().encoding() + rb);
    lemma_regroup(a.signed().encoding(), a.auth().encoding(), ra);
    lemma_regroup(b.signed().encoding(), b.auth().encoding(), rb);
    lemma_regroup(variant_tag(state), a.signed().encoding() + a.auth().encoding(), ra);
    lemma_regroup(variant_tag(state), b.signed().encoding() + b.auth().encoding(), rb);
    lemma_tag_split(state, state, ta, tb);
    SenderSignedData::lemma_split(
        a.signed(),
        b.signed(),
        a.auth().encoding() + ra,
        b.auth().encoding() + rb,
    );
    S::lemma_split(a.auth(), b.auth(), ra, rb);
}

/// Appends the encoding of an envelope in the state with the index `state`.
pub fn write_envelope<S: Encode>(w: &TransactionEnvelope<S>, state: u8, out: &mut Vec<u8>)
    ensures
        final(out)@ == old(out)@ + enc_envelope(state, *w),
{
    let ghost s0 = out@;
    write_tag(out, state);
    let ghost s1 = out@;
    w.signed_data().encode(out);
    w.auth_sign_info().encode(out);
    proof {
        lemma_regroup(s1, w.signed().encoding(), w.auth().encoding());
        lemma_regroup(s0, variant_tag(state), w.signed().encoding() + w.auth().encoding());
    }
}

/// Reads an envelope in the state with the index `state`: not marked as verified, with
/// no digest kept. Hands out nothing where no such envelope that can be read stands
/// there.
pub fn read_envelope<S: Decode>(bytes: &[u8], pos: usize, state: u8) -> (r: Option<
    (TransactionEnvelope<S>, usize),
>)
    requires
        pos <= bytes@.len(),
    ensures
        r matches Some((v, next)) ==> pos <= next <= bytes@.len()
            && bytes@.subrange(pos as int, next as int) == enc_envelope(state, v)
            && envelope_readable(v) && !v.verified_mark() && v.kept_digest().is_none(),
        r is None ==> forall|w: TransactionEnvelope<S>, tail: Seq<u8>|
            envelope_readable(w) ==> bytes@.skip(pos as int)
                != #[trigger] (enc_envelope(state, w) + tail),
{
    let ghost at = bytes@.skip(pos as int);
    let (tag, at1) = match read_tag(bytes, pos) {
        Some(found) => found,
        None => {
            assert forall|w: TransactionEnvelope<S>, tail: Seq<u8>|
                at != #[trigger] (enc_envelope(state, w) + tail) by {
                assert(at.len() == 0);
                assert((enc_envelope(state, w) + tail).len() > 0);
            }
            return None;
        },
    };
    proof {
        lemma_skip_splits(bytes@, pos as int, at1 as int);
        assert(bytes@.subrange(pos as int, at1 as int) =~= variant_tag(tag));
        assert forall|w: TransactionEnvelope<S>, tail: Seq<u8>|
            at == #[trigger] (enc_envelope(state, w) + tail) implies tag == state
            && bytes@.skip(at1 as int) == w.signed().encoding() + (w.auth().encoding() + tail) by {
            lemma_regroup(w.signed().encoding(), w.auth().encoding(), tail);
            lemma_regroup(variant_tag(state), w.signed().encoding() + w.auth().encoding(), tail);
            lemma_tag_split(
                tag,
                state,
                bytes@.skip(at1 as int),
                w.signed().encoding() + (w.auth().encoding() + tail),
            );
        }
    }
    if tag != state {
        return None;
    }
    let (signed_data, at2) = match SenderSignedData::decode(bytes, at1) {
        Some(found) => found,
        None => {
            assert forall|w: TransactionEnvelope<S>, tail: Seq<u8>| envelope_readable(w)
                implies at != #[trigger] (enc_envelope(state, w) + tail) by {
                if at == enc_envelope(state, w) + tail {
                    assert(bytes@.skip(at1 as int) == w.signed().encoding() + (w.auth().encoding()
                        + tail));
                    assert(w.signed().is_readable());
                }
            }
            return None;
        },
    };
    proof {
        lemma_skip_splits(bytes@, at1 as int, at2 as int);
        assert forall|w: TransactionEnvelope<S>, tail: Seq<u8>|
            at == #[trigger] (enc_envelope(state, w) + tail)
            implies bytes@.skip(at2 as int) == w.auth().encoding() + tail by {
            SenderSignedData::lemma_split(
                signed_data,
                w.signed(),
                bytes@.skip(at2 as int),
                w.auth().encoding() + tail,
            );
        }
    }
    let (auth, at3) = match S::decode(bytes, at2) {
        Some(found) => found,
        None => {
            assert forall|w: TransactionEnvelope<S>, tail: Seq<u8>| envelope_readable(w)
                implies at != #[trigger] (enc_envelope(state, w) + tail) by {
                if at == enc_envelope(state, w) + tail {
                    assert(bytes@.skip(at2 as int) == w.auth().encoding() + tail);
                    assert(w.auth().is_readable());
                }
            }
            return None;
        },
    };
    let v = TransactionEnvelope::assemble(signed_data, auth);
    proof {
        lemma_join(bytes@, at1 as int, at2 as int, at3 as int);
        lemma_join(bytes@, pos as int, at1 as int, at3 as int);
    }
    Some((v, at3))
}

impl Encode for TransactionEnvelope<EmptySignInfo> {
    open spec fn encoding(&self) -> Seq<u8> {
        enc_envelope(0, *self)
    }

    fn encode(&self, out: &mut Vec<u8>) {
        assert(self.encoding() == enc_envelope(0, *self));
        write_envelope(self, 0, out);
    }
}

impl Decode for TransactionEnvelope<EmptySignInfo> {
    open spec fn is_readable(&self) -> bool {
        envelope_readable(*self)
    }

    proof fn lemma_split(a: Self, b: Self, ra: Seq<u8>, rb: Seq<u8>) {
        assert(a.encoding() == enc_envelope(0, a));
        assert(b.encoding() == enc_envelope(0, b));
        lemma_envelope_split(0, a, b, ra, rb);
    }

    fn decode(bytes: &[u8], pos: usize) -> (r: Option<(Self, usize)>) {
        match read_envelope::<EmptySignInfo>(bytes, pos, 0) {
            Some((v, next)) => {
                assert(v.encoding() == enc_envelope(0, v));
                assert(v.is_readable());
                Some((v, next))
            },
            None => {
                assert forall|w: Self, tail: Seq<u8>| w.is_readable()
                    implies bytes@.skip(pos as int) != #[trigger] (w.encoding() + tail) by {
                    assert(w.encoding() == enc_envelope(0, w));
                    assert(envelope_readable(w));
                }
                None
            },
        }
    }
}

impl Encode for TransactionEnvelope<AuthoritySignInfo> {
    open spec fn encoding(&self) -> Seq<u8> {
        enc_envelope(1, *self)
    }

    fn encode(&self, out: &mut Vec<u8>) {
        assert(self.encoding() == enc_envelope(1, *self));
        write_envelope(self, 1, out);
    }
}

impl Decode for TransactionEnvelope<AuthoritySignInfo> {
    open spec fn is_readable(&self) -> bool {
        envelope_readable(*self)
    }

    proof fn lemma_split(a: Self, b: Self, ra: Seq<u8>, rb: Seq<u8>) {
        assert(a.encoding() == enc_envelope(1, a));
        assert(b.encoding() == enc_envelope(1, b));
        lemma_envelope_split(1, a, b, ra, rb);
    }

    fn decode(bytes: &[u8], pos: usize) -> (r: Option<(Self, usize)>) {
        match read_envelope::<AuthoritySignInfo>(bytes, pos, 1) {
            Some((v, next)) => {
                assert(v.encoding() == enc_envelope(1, v));
                assert(v.is_readable());
                Some((v, next))
            },
            None => {
                assert forall|w: Self, tail: Seq<u8>| w.is_readable()
                    implies bytes@.skip(pos as int) != #[trigger] (w.encoding() + tail) by {
                    assert(w.encoding() == enc_envelope(1, w));
                    assert(envelope_readable(w));
                }
                None
            },
        }
    }
}

impl Encode for TransactionEnvelope<AuthorityStrongQuorumSignInfo> {
    open spec fn encoding(&self) -> Seq<u8> {
        enc_envelope(2, *self)
    }

    fn encode(&self, out: &mut Vec<u8>) {
        assert(self.encoding() == enc_envelope(2, *self));
        write_envelope(self, 2, out);
    }
}

impl Decode for TransactionEnvelope<AuthorityStrongQuorumSignInfo> {
    open spec fn is_readable(&self) -> bool {
        envelope_readable(*self)
    }

    proof fn lemma_split(a: Self, b: Self, ra: Seq<u8>, rb: Seq<u8>) {
        assert(a.encoding() == enc_envelope(2, a));
        assert(b.encoding() == enc_envelope(2, b));
        lemma_envelope_split(2, a, b, ra, rb);
    }

    fn decode(bytes: &[u8], pos: usize) -> (r: Option<(Self, usize)>) {
        match read_envelope::<AuthorityStrongQuorumSignInfo>(bytes, pos, 2) {
            Some((v, next)) => {
                assert(v.encoding() == enc_envelope(2, v));
                assert(v.is_readable());
                Some((v, next))
            },
            None => {
                assert forall|w: Self, tail: Seq<u8>| w.is_readable()
                    implies bytes@.skip(pos as int) != #[trigger] (w.encoding() + tail) by {
                    assert(w.encoding() == enc_envelope(2, w));
                    assert(envelope_readable(w));
                }
                None
            },
        }
    }
}

/// The encoding of a transaction that only its sender has signed is the one that
/// `to_bytes` gives.
pub proof fn lemma_transaction_encoding(w: TransactionEnvelope<EmptySignInfo>)
    ensures
        w.encoding() == enc_transaction(w.data()),
{
    assert(w.encoding() == enc_envelope(0, w));
    assert(w.auth().encoding() == Seq::<u8>::empty());
    assert(w.signed().encoding() == crate::envelope::enc_sender_signed_data(w.data()));
    assert(w.signed().encoding() + w.auth().encoding() =~= w.signed().encoding());
}

/// The encoding of a transaction that one authority has signed is the one that
/// `to_bytes` gives.
pub proof fn lemma_signed_transaction_encoding(w: TransactionEnvelope<AuthoritySignInfo>)
    ensures
        w.encoding() == enc_signed_transaction(w.data(), w.auth()),
{
    assert(w.encoding() == enc_envelope(1, w));
    assert(w.auth().encoding() == enc_authority_info(w.auth()));
    assert(w.signed().encoding() == crate::envelope::enc_sender_signed_data(w.data()));
    assert(enc_envelope(1, w) =~= enc_signed_transaction(w.data(), w.auth()));
}

/// The encoding of a certificate is the one that `to_bytes` gives.
pub proof fn lemma_certificate_encoding(w: TransactionEnvelope<AuthorityStrongQuorumSignInfo>)
    ensures
        w.encoding() == enc_certificate(
            w.data(),
            w.auth().epoch,
            w.auth().signature,
            w.auth().signers(),
        ),
{
    assert(w.encoding() == enc_envelope(2, w));
    lemma_parts_of_quorum_info(w.auth(), Seq::empty());
    lemma_certificate_parts(w.signed(), w.auth().epoch, w.auth().signature, w.auth().signers());
    assert(w.auth().encoding() =~= crate::reading_certificate::certificate_tail(
        w.auth().epoch,
        w.auth().signature,
        w.auth().signers(),
    ));
}

} // verus!
