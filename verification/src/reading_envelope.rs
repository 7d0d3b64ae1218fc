//! Reading sender-signed data and envelopes back.

use crate::base_types::AuthorityName;
use crate::codec::{u64_le, variant_tag, Encode};
use crate::crypto::{AuthoritySignature, Signature};
use crate::envelope::{enc_sender_signed_data, SenderSignedData, TransactionEnvelope};
use crate::envelope_wire::{
    enc_signed_transaction, enc_transaction, lemma_sender_signed_data_split, same_signed_data,
};
use crate::framing::{lemma_cancel_tail, lemma_regroup};
use crate::reading::{decode_all, lemma_join, lemma_skip_splits, read_tag, Decode};
use crate::sign_info::{AuthoritySignInfo, EmptySignInfo};
use crate::transaction_data::TransactionData;
use crate::wire_laws::{lemma_tag_split, same_data};
use vstd::prelude::*;

verus! {

impl Decode for SenderSignedData {
    open spec fn is_readable(&self) -> bool {
        self.data.is_readable()
    }

    proof fn lemma_split(a: Self, b: Self, ra: Seq<u8>, rb: Seq<u8>) {
        lemma_sender_signed_data_split(a@, b@, ra, rb);
        lemma_cancel_tail(a.encoding(), b.encoding(), ra);
    }

    fn decode(bytes: &[u8], pos: usize) -> (r: Option<(Self, usize)>) {
        let ghost at = bytes@.skip(pos as int);
        let (data, at1) = match TransactionData::decode(bytes, pos) {
            Some(x) => x,
            None => {
                assert forall|w: Self, tail: Seq<u8>| w.is_readable()
                    implies at != #[trigger] (w.encoding() + tail) by {
                    assert(w.encoding() + tail =~= w.data.encoding()
                        + (w.tx_signature.encoding() + tail));
                }
                return None;
            },
        };
        proof {
            lemma_skip_splits(bytes@, pos as int, at1 as int);
            assert forall|w: Self, tail: Seq<u8>| at == #[trigger] (w.encoding() + tail)
                implies bytes@.skip(at1 as int) == w.tx_signature.encoding() + tail by {
                let rest = w.tx_signature.encoding() + tail;
                assert(w.encoding() + tail =~= w.data.encoding() + rest);
                TransactionData::lemma_split(data, w.data, bytes@.skip(at1 as int), rest);
            }
        }
        match Signature::decode(bytes, at1) {
            Some((tx_signature, at2)) => {
                let ghost held = data.encoding();
                let v = SenderSignedData { data, tx_signature };
                proof {
                    lemma_join(bytes@, pos as int, at1 as int, at2 as int);
                    assert(v.encoding() == held + tx_signature.encoding());
                }
                assert(v.is_readable());
                Some((v, at2))
            },
            None => None,
        }
    }
}

impl TransactionData {
    /// The data whose encoding `bytes` are. Hands out nothing where they are the
    /// encoding of no data. What the message layer reads of published modules is not
    /// encoded: it is left empty, for the caller to fill in with `with_compiled`.
    pub fn from_bytes(bytes: &[u8]) -> (r: Option<TransactionData>)
        ensures
            r matches Some(v) ==> v.encoding() == bytes@ && v.is_readable(),
            r is None ==> forall|w: TransactionData|
                w.is_readable() ==> #[trigger] w.encoding() != bytes@,
    {
        decode_all::<TransactionData>(bytes)
    }
}

impl TransactionEnvelope<EmptySignInfo> {
    /// The transaction whose encoding `bytes` are, with no digest kept and without the
    /// mark of verification. Hands out nothing where they are the encoding of none.
    pub fn from_bytes(bytes: &[u8]) -> (r: Option<Self>)
        ensures
            r matches Some(t) ==> enc_transaction(t.data()) == bytes@ && !t.verified_mark()
                && t.kept_digest().is_none(),
            r is None ==> forall|w: SenderSignedData|
                w.is_readable() ==> #[trigger] enc_transaction(w@) != bytes@,
    {
        let (tag, at1) = match read_tag(bytes, 0) {
            Some(x) => x,
            None => {
                assert forall|w: SenderSignedData| #[trigger] enc_transaction(w@) != bytes@ by {
                    assert(enc_transaction(w@).len() > 0);
                }
                return None;
            },
        };
        proof {
            lemma_skip_splits(bytes@, 0, 1);
            assert(bytes@.skip(0) =~= bytes@);
            assert(bytes@.subrange(0, 1) =~= variant_tag(tag));
        }
        if tag != 0 {
            assert forall|w: SenderSignedData| #[trigger] enc_transaction(w@) != bytes@ by {
                assert(enc_transaction(w@)[0] == 0);
            }
            return None;
        }
        match SenderSignedData::decode(bytes, 1) {
            Some((signed_data, next)) => {
                proof {
                    lemma_skip_splits(bytes@, 1, next as int);
                }
                if next != bytes.len() {
                    assert forall|w: SenderSignedData| #[trigger] enc_transaction(w@) != bytes@ by {
                        if enc_transaction(w@) == bytes@ {
                            let empty = Seq::<u8>::empty();
                            lemma_tag_split(0, 0, bytes@.skip(1), w.encoding());
                            assert(w.encoding() + empty =~= w.encoding());
                            SenderSignedData::lemma_split(
                                signed_data,
                                w,
                                bytes@.skip(next as int),
                                empty,
                            );
                            assert(bytes@.skip(next as int).len() > 0);
                        }
                    }
                    return None;
                }
                proof {
                    lemma_join(bytes@, 0, 1, next as int);
                    assert(bytes@.subrange(0, next as int) =~= bytes@);
                }
                Some(TransactionEnvelope::assemble(signed_data, EmptySignInfo {  }))
            },
            None => {
                assert forall|w: SenderSignedData| w.is_readable()
                    implies #[trigger] enc_transaction(w@) != bytes@ by {
                    if enc_transaction(w@) == bytes@ {
                        let empty = Seq::<u8>::empty();
                        lemma_tag_split(0, 0, bytes@.skip(1), w.encoding());
                        assert(w.encoding() + empty =~= w.encoding());
                    }
                }
                None
            },
        }
    }
}

/// The encoding of what one authority adds to a transaction.
pub open spec fn enc_authority_info(info: AuthoritySignInfo) -> Seq<u8> {
    u64_le(info.epoch) + info.authority.0@ + info.signature.0@
}

/// What one authority adds is told by its encoding.
pub proof fn lemma_authority_info_same(a: AuthoritySignInfo, b: AuthoritySignInfo)
    requires
        a.encoding() == b.encoding(),
    ensures
        a == b,
{
    let ta = a.authority.0@ + a.signature.0@;
    let tb = b.authority.0@ + b.signature.0@;
    assert(a.encoding() == enc_authority_info(a));
    assert(b.encoding() == enc_authority_info(b));
    assert(enc_authority_info(a) =~= u64_le(a.epoch) + ta);
    assert(enc_authority_info(b) =~= u64_le(b.epoch) + tb);
    crate::framing::lemma_u64_split(a.epoch, b.epoch, ta, tb);
    crate::framing::lemma_same_length_split(
        a.authority.0@,
        b.authority.0@,
        a.signature.0@,
        b.signature.0@,
    );
    assert(a.authority.0 =~= b.authority.0);
    assert(a.signature.0 =~= b.signature.0);
}

impl Encode for AuthoritySignInfo {
    open spec fn encoding(&self) -> Seq<u8> {
        enc_authority_info(*self)
    }

    fn encode(&self, out: &mut Vec<u8>) {
        assert(self.encoding() == enc_authority_info(*self));
        let ghost start = out@;
        self.epoch.encode(out);
        self.authority.encode(out);
        self.signature.encode(out);
        assert(out@ =~= start + enc_authority_info(*self));
    }
}

impl Decode for AuthoritySignInfo {
    open spec fn is_readable(&self) -> bool {
        true
    }

    proof fn lemma_split(a: Self, b: Self, ra: Seq<u8>, rb: Seq<u8>) {
        let ta = a.authority.encoding() + (a.signature.encoding() + ra);
        let tb = b.authority.encoding() + (b.signature.encoding() + rb);
        assert(a.encoding() + ra =~= a.epoch.encoding() + ta);
        assert(b.encoding() + rb =~= b.epoch.encoding() + tb);
        u64::lemma_split(a.epoch, b.epoch, ta, tb);
        AuthorityName::lemma_split(
            a.authority,
            b.authority,
            a.signature.encoding() + ra,
            b.signature.encoding() + rb,
        );
        AuthoritySignature::lemma_split(a.signature, b.signature, ra, rb);
        lemma_cancel_tail(a.encoding(), b.encoding(), ra);
    }

    fn decode(bytes: &[u8], pos: usize) -> (r: Option<(Self, usize)>) {
        let ghost at = bytes@.skip(pos as int);
        let (epoch, at1) = match u64::decode(bytes, pos) {
            Some(x) => x,
            None => {
                assert forall|w: Self, tail: Seq<u8>| at != #[trigger] (w.encoding() + tail) by {
                    assert(w.encoding() + tail =~= w.epoch.encoding()
                        + (w.authority.encoding() + (w.signature.encoding() + tail)));
                }
                return None;
            },
        };
        proof {
            lemma_skip_splits(bytes@, pos as int, at1 as int);
            assert forall|w: Self, tail: Seq<u8>| at == #[trigger] (w.encoding() + tail)
                implies bytes@.skip(at1 as int)
                    == w.authority.encoding() + (w.signature.encoding() + tail) by {
                let rest = w.authority.encoding() + (w.signature.encoding() + tail);
                assert(w.encoding() + tail =~= w.epoch.encoding() + rest);
                u64::lemma_split(epoch, w.epoch, bytes@.skip(at1 as int), rest);
            }
        }
        let (authority, at2) = match AuthorityName::decode(bytes, at1) {
            Some(x) => x,
            None => {
                return None;
            },
        };
        proof {
            lemma_skip_splits(bytes@, at1 as int, at2 as int);
            assert forall|w: Self, tail: Seq<u8>| at == #[trigger] (w.encoding() + tail)
                implies bytes@.skip(at2 as int) == w.signature.encoding() + tail by {
                AuthorityName::lemma_split(
                    authority,
                    w.authority,
                    bytes@.skip(at2 as int),
                    w.signature.encoding() + tail,
                );
            }
        }
        let (signature, at3) = match AuthoritySignature::decode(bytes, at2) {
            Some(x) => x,
            None => {
                return None;
            },
        };
        let v = AuthoritySignInfo { epoch, authority, signature };
        proof {
            lemma_join(bytes@, at1 as int, at2 as int, at3 as int);
            lemma_join(bytes@, pos as int, at1 as int, at3 as int);
            assert(v.encoding() =~= epoch.encoding() + (authority.encoding()
                + signature.encoding()));
        }
        assert(v.is_readable());
        Some((v, at3))
    }
}

impl TransactionEnvelope<AuthoritySignInfo> {
    /// The signed transaction whose encoding `bytes` are, with no digest kept and
    /// without the mark of verification. Hands out nothing where they are the encoding
    /// of none.
    pub fn from_bytes(bytes: &[u8]) -> (r: Option<Self>)
        ensures
            r matches Some(t) ==> enc_signed_transaction(t.data(), t.auth()) == bytes@
                && !t.verified_mark() && t.kept_digest().is_none(),
            r is None ==> forall|w: SenderSignedData, info: AuthoritySignInfo|
                w.is_readable() ==> #[trigger] enc_signed_transaction(w@, info) != bytes@,
    {
        let (tag, at1) = match read_tag(bytes, 0) {
            Some(x) => x,
            None => {
                assert forall|w: SenderSignedData, info: AuthoritySignInfo| #[trigger]
                    enc_signed_transaction(w@, info) != bytes@ by {
                    assert(enc_signed_transaction(w@, info).len() > 0);
                }
                return None;
            },
        };
        proof {
            lemma_skip_splits(bytes@, 0, 1);
            assert(bytes@.skip(0) =~= bytes@);
            assert(bytes@.subrange(0, 1) =~= variant_tag(tag));
            assert forall|w: SenderSignedData, info: AuthoritySignInfo| #[trigger]
                enc_signed_transaction(w@, info) == bytes@ implies tag == 1 && bytes@.skip(1)
                == w.encoding() + (info.encoding() + Seq::<u8>::empty()) by {
                let rest = w.encoding() + (info.encoding() + Seq::<u8>::empty());
                assert(enc_signed_transaction(w@, info) =~= variant_tag(1) + rest);
                lemma_tag_split(tag, 1, bytes@.skip(1), rest);
            }
        }
        if tag != 1 {
            return None;
        }
        let (signed_data, at2) = match SenderSignedData::decode(bytes, 1) {
            Some(x) => x,
            None => {
                return None;
            },
        };
        proof {
            lemma_skip_splits(bytes@, 1, at2 as int);
            assert forall|w: SenderSignedData, info: AuthoritySignInfo| #[trigger]
                enc_signed_transaction(w@, info) == bytes@ implies bytes@.skip(at2 as int)
                == info.encoding() + Seq::<u8>::empty() by {
                SenderSignedData::lemma_split(
                    signed_data,
                    w,
                    bytes@.skip(at2 as int),
                    info.encoding() + Seq::<u8>::empty(),
                );
            }
        }
        let (info, at3) = match AuthoritySignInfo::decode(bytes, at2) {
            Some(x) => x,
            None => {
                return None;
            },
        };
        proof {
            lemma_skip_splits(bytes@, at2 as int, at3 as int);
        }
        if at3 != bytes.len() {
            assert forall|w: SenderSignedData, other: AuthoritySignInfo| #[trigger]
                enc_signed_transaction(w@, other) != bytes@ by {
                if enc_signed_transaction(w@, other) == bytes@ {
                    AuthoritySignInfo::lemma_split(
                        info,
                        other,
                        bytes@.skip(at3 as int),
                        Seq::<u8>::empty(),
                    );
                    assert(bytes@.skip(at3 as int).len() > 0);
                }
            }
            return None;
        }
        proof {
            lemma_join(bytes@, 1, at2 as int, at3 as int);
            lemma_join(bytes@, 0, 1, at3 as int);
            assert(bytes@.subrange(0, at3 as int) =~= bytes@);
            assert(enc_signed_transaction(signed_data@, info) =~= variant_tag(1)
                + (signed_data.encoding() + info.encoding()));
        }
        Some(TransactionEnvelope::assemble(signed_data, info))
    }
}

/// Reading undoes encoding for the data of a transaction: from the encoding of
/// readable data, every reading that `from_bytes` allows hands out those data, as far
/// as they are encoded.
pub proof fn lemma_transaction_data_reads_back(
    x: TransactionData,
    bytes: &[u8],
    r: Option<TransactionData>,
)
    requires
        x.is_readable(),
        bytes@ == x.encoding(),
        call_ensures(TransactionData::from_bytes, (bytes,), r),
    ensures
        r matches Some(y) && same_data(y@, x@),
{
    let y = r->0;
    let empty = Seq::<u8>::empty();
    assert(y.encoding() + empty == x.encoding() + empty);
    crate::wire_laws::lemma_transaction_data_split(y@, x@, empty, empty);
}

/// Reading undoes encoding for a transaction that only its sender has signed, and the
/// transaction read has the digest of the one encoded.
pub proof fn lemma_transaction_reads_back(
    x: SenderSignedData,
    bytes: &[u8],
    r: Option<TransactionEnvelope<EmptySignInfo>>,
)
    requires
        x.is_readable(),
        bytes@ == enc_transaction(x@),
        call_ensures(TransactionEnvelope::<EmptySignInfo>::from_bytes, (bytes,), r),
    ensures
        r matches Some(t) && same_signed_data(t.data(), x@) && crate::envelope::digest_of(
            t.data(),
        ) == crate::envelope::digest_of(x@),
{
    let t = r->0;
    let empty = Seq::<u8>::empty();
    lemma_regroup(variant_tag(0), enc_sender_signed_data(t.data()), empty);
    lemma_regroup(variant_tag(0), enc_sender_signed_data(x@), empty);
    assert(enc_transaction(t.data()) + empty == enc_transaction(x@) + empty);
    lemma_tag_split(
        0,
        0,
        enc_sender_signed_data(t.data()) + empty,
        enc_sender_signed_data(x@) + empty,
    );
    lemma_sender_signed_data_split(t.data(), x@, empty, empty);
    lemma_cancel_tail(enc_sender_signed_data(t.data()), enc_sender_signed_data(x@), empty);
}

/// Reading undoes encoding for a transaction that one authority has signed, and the
/// transaction read has the digest of the one encoded.
pub proof fn lemma_signed_transaction_reads_back(
    x: SenderSignedData,
    info: AuthoritySignInfo,
    bytes: &[u8],
    r: Option<TransactionEnvelope<AuthoritySignInfo>>,
)
    requires
        x.is_readable(),
        bytes@ == enc_signed_transaction(x@, info),
        call_ensures(TransactionEnvelope::<AuthoritySignInfo>::from_bytes, (bytes,), r),
    ensures
        r matches Some(t) && same_signed_data(t.data(), x@) && t.auth() == info
            && crate::envelope::digest_of(t.data()) == crate::envelope::digest_of(x@),
{
    let t = r->0;
    crate::envelope_wire::lemma_signed_transaction_round_trip(x@, info);
    crate::envelope_wire::lemma_signed_transaction_round_trip(t.data(), t.auth());
    crate::envelope_wire::lemma_signed_transaction_same(t.data(), t.auth(), x@, info);
}

} // verus!
