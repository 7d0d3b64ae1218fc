//! The encoding of effects in their envelopes, written and read back: the effects,
//! then what the authorities added. The digest that an envelope keeps is no part of it.

use crate::codec::Encode;
use crate::effects::{effects_digest, TransactionEffects, TransactionEffectsEnvelope};
use crate::framing::{lemma_cancel_tail, lemma_regroup};
use crate::quorum::AuthorityStrongQuorumSignInfo;
use crate::quorum_wire::lemma_quorum_info_same;
use crate::reading::{decode_all, lemma_join, lemma_skip_splits, Decode};
use crate::sign_info::AuthoritySignInfo;
use vstd::prelude::*;

verus! {

impl<S: Decode> Encode for TransactionEffectsEnvelope<S> {
    open spec fn encoding(&self) -> Seq<u8> {
        self.effects().encoding() + self.auth().encoding()
    }

    fn encode(&self, out: &mut Vec<u8>) {
        assert(self.encoding() == self.effects().encoding() + self.auth().encoding());
        let ghost start = out@;
        self.effects_ref().encode(out);
        self.auth_signature().encode(out);
        proof {
            lemma_regroup(start, self.effects().encoding(), self.auth().encoding());
        }
    }
}

impl<S: Decode> Decode for TransactionEffectsEnvelope<S> {
    open spec fn is_readable(&self) -> bool {
        self.effects().is_readable() && self.auth().is_readable()
    }

    proof fn lemma_split(a: Self, b: Self, ra: Seq<u8>, rb: Seq<u8>) {
        assert(a.encoding() == a.effects().encoding() + a.auth().encoding());
        assert(b.encoding() == b.effects().encoding() + b.auth().encoding());
        lemma_regroup(a.effects().encoding(), a.auth().encoding(), ra);
        lemma_regroup(b.effects().encoding(), b.auth().encoding(), rb);
        TransactionEffects::lemma_split(
            a.effects(),
            b.effects(),
            a.auth().encoding() + ra,
            b.auth().encoding() + rb,
        );
        S::lemma_split(a.auth(), b.auth(), ra, rb);
        lemma_cancel_tail(a.encoding(), b.encoding(), ra);
    }

    fn decode(bytes: &[u8], pos: usize) -> (r: Option<(Self, usize)>) {
        let ghost at = bytes@.skip(pos as int);
        let (effects, at1) = match TransactionEffects::decode(bytes, pos) {
            Some(found) => found,
            None => {
                assert forall|w: Self, tail: Seq<u8>| w.is_readable()
                    implies at != #[trigger] (w.encoding() + tail) by {
                    if at == w.encoding() + tail {
                        assert(w.encoding() == w.effects().encoding() + w.auth().encoding());
                        lemma_regroup(w.effects().encoding(), w.auth().encoding(), tail);
                        assert(w.effects().is_readable());
                    }
                }
                return None;
            },
        };
        proof {
            lemma_skip_splits(bytes@, pos as int, at1 as int);
            assert forall|w: Self, tail: Seq<u8>| at == #[trigger] (w.encoding() + tail)
                implies bytes@.skip(at1 as int) == w.auth().encoding() + tail by {
                assert(w.encoding() == w.effects().encoding() + w.auth().encoding());
                lemma_regroup(w.effects().encoding(), w.auth().encoding(), tail);
                TransactionEffects::lemma_split(
                    effects,
                    w.effects(),
                    bytes@.skip(at1 as int),
                    w.auth().encoding() + tail,
                );
            }
        }
        let (auth, at2) = match S::decode(bytes, at1) {
            Some(found) => found,
            None => {
                assert forall|w: Self, tail: Seq<u8>| w.is_readable()
                    implies at != #[trigger] (w.encoding() + tail) by {
                    if at == w.encoding() + tail {
                        assert(bytes@.skip(at1 as int) == w.auth().encoding() + tail);
                        assert(w.auth().is_readable());
                    }
                }
                return None;
            },
        };
        let v = TransactionEffectsEnvelope::assemble(None, effects, auth);
        proof {
            lemma_join(bytes@, pos as int, at1 as int, at2 as int);
            assert(v.encoding() == v.effects().encoding() + v.auth().encoding());
            assert(v.is_readable());
        }
        Some((v, at2))
    }
}

impl<S: Decode> TransactionEffectsEnvelope<S> {
    /// The encoding of the envelope.
    pub fn to_bytes(&self) -> (r: Vec<u8>)
        ensures
            r@ == self.effects().encoding() + self.auth().encoding(),
    {
        let mut out: Vec<u8> = Vec::new();
        self.encode(&mut out);
        assert(self.encoding() == self.effects().encoding() + self.auth().encoding());
        assert(out@ =~= self.encoding());
        out
    }

    /// The envelope whose encoding `bytes` are, with no digest kept. Hands out nothing
    /// where they are the encoding of no envelope that can be read.
    pub fn from_bytes(bytes: &[u8]) -> (r: Option<Self>)
        ensures
            r matches Some(v) ==> v.effects().encoding() + v.auth().encoding() == bytes@
                && v.effects().is_readable() && v.auth().is_readable()
                && v.kept_digest().is_none(),
            r is None ==> forall|w: Self|
                w.effects().is_readable() && w.auth().is_readable() ==>
                    #[trigger] (w.effects().encoding() + w.auth().encoding()) != bytes@,
    {
        match decode_all::<Self>(bytes) {
            Some(found) => {
                assert(found.encoding() == found.effects().encoding() + found.auth().encoding());
                assert(found.is_readable());
                let (effects, auth) = found.into_parts();
                Some(TransactionEffectsEnvelope::assemble(None, effects, auth))
            },
            None => {
                assert forall|w: Self| w.effects().is_readable() && w.auth().is_readable()
                    implies #[trigger] (w.effects().encoding() + w.auth().encoding())
                    != bytes@ by {
                    assert(w.is_readable());
                    assert(w.encoding() == w.effects().encoding() + w.auth().encoding());
                }
                None
            },
        }
    }
}

/// Reading undoes encoding for effects in an envelope: from the encoding of an envelope
/// that can be read, every reading that `from_bytes` allows hands out an envelope whose
/// effects and whose addition of the authorities have the same encodings, and so the
/// same digest.
pub proof fn lemma_envelope_reads_back<S: Decode>(
    x: TransactionEffectsEnvelope<S>,
    bytes: &[u8],
    r: Option<TransactionEffectsEnvelope<S>>,
)
    requires
        x.effects().is_readable(),
        x.auth().is_readable(),
        bytes@ == x.effects().encoding() + x.auth().encoding(),
        call_ensures(TransactionEffectsEnvelope::<S>::from_bytes, (bytes,), r),
    ensures
        r matches Some(y) && y.effects().encoding() == x.effects().encoding()
            && y.auth().encoding() == x.auth().encoding()
            && effects_digest(y.effects()) == effects_digest(x.effects()),
{
    let y = r->0;
    TransactionEffects::lemma_split(
        y.effects(),
        x.effects(),
        y.auth().encoding(),
        x.auth().encoding(),
    );
    lemma_cancel_tail(y.effects().encoding(), x.effects().encoding(), y.auth().encoding());
}

/// Read back, signed effects carry the signature that was encoded.
pub proof fn lemma_signed_effects_read_back(
    x: TransactionEffectsEnvelope<AuthoritySignInfo>,
    bytes: &[u8],
    r: Option<TransactionEffectsEnvelope<AuthoritySignInfo>>,
)
    requires
        x.effects().is_readable(),
        bytes@ == x.effects().encoding() + x.auth().encoding(),
        call_ensures(TransactionEffectsEnvelope::<AuthoritySignInfo>::from_bytes, (bytes,), r),
    ensures
        r matches Some(y) && y.effects().encoding() == x.effects().encoding()
            && y.auth() == x.auth(),
{
    lemma_envelope_reads_back(x, bytes, r);
    let y = r->0;
    crate::reading_envelope::lemma_authority_info_same(y.auth(), x.auth());
}

/// Read back, certified effects carry the epoch, the signature and the set of signers
/// that were encoded.
pub proof fn lemma_certified_effects_read_back(
    x: TransactionEffectsEnvelope<AuthorityStrongQuorumSignInfo>,
    bytes: &[u8],
    r: Option<TransactionEffectsEnvelope<AuthorityStrongQuorumSignInfo>>,
)
    requires
        x.effects().is_readable(),
        bytes@ == x.effects().encoding() + x.auth().encoding(),
        call_ensures(
            TransactionEffectsEnvelope::<AuthorityStrongQuorumSignInfo>::from_bytes,
            (bytes,),
            r,
        ),
    ensures
        r matches Some(y) && y.effects().encoding() == x.effects().encoding()
            && y.auth().epoch == x.auth().epoch && y.auth().signature == x.auth().signature
            && y.auth().signers() == x.auth().signers(),
{
    lemma_envelope_reads_back(x, bytes, r);
    let y = r->0;
    lemma_quorum_info_same(y.auth(), x.auth());
}

} // verus!
