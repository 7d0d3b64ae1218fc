//! The encoding of the envelopes. Each of the three states has an index of its own at
//! the head of its encoding, so that no encoding of one state reads as another.

use crate::codec::{
    concat_map, encode_seq, lemma_concat_map_step, u64_le, variant_tag, write_raw, write_tag,
    write_u64, write_uleb128, Encode,
};
use crate::crypto::AggregateAuthoritySignature;
use crate::envelope::{
    digest_of, enc_sender_signed_data, SenderSignedDataView, TransactionEnvelope,
};
use crate::framing::{
    lemma_regroup, lemma_same_length_split, lemma_seq_split, lemma_u64_split,
    lemma_u64_unambiguous,
};
use crate::quorum::AuthorityStrongQuorumSignInfo;
use crate::sign_info::{bitmap_members, AuthoritySignInfo, EmptySignInfo};
use crate::transaction::EpochId;
use crate::wire::enc_transaction_data;
use crate::wire_laws::{lemma_tag_split, lemma_transaction_data_split, same_data};
use vstd::prelude::*;

verus! {

/// The numbers of `set` below `bound`, in increasing order.
pub open spec fn members_below(set: Set<u32>, bound: nat) -> Seq<u64>
    decreases bound,
{
    if bound == 0 {
        Seq::empty()
    } else if bound - 1 <= u32::MAX && set.contains((bound - 1) as u32) {
        members_below(set, (bound - 1) as nat).push((bound - 1) as u64)
    } else {
        members_below(set, (bound - 1) as nat)
    }
}

/// The numbers of `set`, in increasing order.
pub open spec fn members_of(set: Set<u32>) -> Seq<u64> {
    members_below(set, 0x1_0000_0000)
}

/// The encoding of a set of signers: their positions, in increasing order.
pub open spec fn enc_signers(set: Set<u32>) -> Seq<u8> {
    encode_seq(members_of(set), |x: u64| u64_le(x))
}

/// The encoding of a transaction that only its sender has signed.
pub open spec fn enc_transaction(d: SenderSignedDataView) -> Seq<u8> {
    variant_tag(0) + enc_sender_signed_data(d)
}

/// The encoding of a transaction that one authority has signed.
pub open spec fn enc_signed_transaction(
    d: SenderSignedDataView,
    info: AuthoritySignInfo,
) -> Seq<u8> {
    variant_tag(1) + enc_sender_signed_data(d) + u64_le(info.epoch) + info.authority.0@
        + info.signature.0@
}

/// The encoding of a certificate.
pub open spec fn enc_certificate(
    d: SenderSignedDataView,
    epoch: EpochId,
    signature: AggregateAuthoritySignature,
    signers: Set<u32>,
) -> Seq<u8> {
    variant_tag(2) + enc_sender_signed_data(d) + u64_le(epoch) + signature.0@ + enc_signers(
        signers,
    )
}

/// Above every number of a set there is nothing more to list.
pub proof fn lemma_members_below_stable(set: Set<u32>, top: nat, bound: nat)
    requires
        top <= bound,
        forall|x: u32| set.contains(x) ==> x < top,
    ensures
        members_below(set, bound) == members_below(set, top),
    decreases bound,
{
    if bound > top {
        lemma_members_below_stable(set, top, (bound - 1) as nat);
    }
}

/// The list of the numbers of a set below a bound holds just those numbers.
pub proof fn lemma_members_below_contains(set: Set<u32>, bound: nat, x: u32)
    requires
        bound <= 0x1_0000_0000,
    ensures
        members_below(set, bound).contains(x as u64) == (set.contains(x) && x < bound),
    decreases bound,
{
    if bound > 0 {
        lemma_members_below_contains(set, (bound - 1) as nat, x);
        let rest = members_below(set, (bound - 1) as nat);
        if set.contains((bound - 1) as u32) {
            let all = rest.push((bound - 1) as u64);
            if rest.contains(x as u64) {
                let i = choose|i: int| 0 <= i < rest.len() && rest[i] == x as u64;
                assert(all[i] == x as u64);
            }
            if x == bound - 1 {
                assert(all[all.len() - 1] == x as u64);
            }
            if all.contains(x as u64) {
                let i = choose|i: int| 0 <= i < all.len() && all[i] == x as u64;
                if i < rest.len() {
                    assert(rest[i] == x as u64);
                }
            }
        }
    }
}

/// Sets with the same list of numbers are the same set.
pub proof fn lemma_members_determine(a: Set<u32>, b: Set<u32>)
    requires
        members_of(a) == members_of(b),
    ensures
        a == b,
{
    assert forall|x: u32| a.contains(x) == b.contains(x) by {
        lemma_members_below_contains(a, 0x1_0000_0000, x);
        lemma_members_below_contains(b, 0x1_0000_0000, x);
    }
    assert(a =~= b);
}

/// Whether two sender-signed data are the same as far as they are encoded.
pub open spec fn same_signed_data(a: SenderSignedDataView, b: SenderSignedDataView) -> bool {
    same_data(a.data, b.data) && a.tx_signature == b.tx_signature
}

/// Sender-signed data can be read back, as far as they are encoded.
pub proof fn lemma_sender_signed_data_split(
    a: SenderSignedDataView,
    b: SenderSignedDataView,
    ra: Seq<u8>,
    rb: Seq<u8>,
)
    requires
        enc_sender_signed_data(a) + ra == enc_sender_signed_data(b) + rb,
    ensures
        same_signed_data(a, b),
        ra == rb,
{
    lemma_regroup(enc_transaction_data(a.data), a.tx_signature.0@, ra);
    lemma_regroup(enc_transaction_data(b.data), b.tx_signature.0@, rb);
    lemma_transaction_data_split(
        a.data,
        b.data,
        a.tx_signature.0@ + ra,
        b.tx_signature.0@ + rb,
    );
    lemma_same_length_split(a.tx_signature.0@, b.tx_signature.0@, ra, rb);
    assert(a.tx_signature.0 =~= b.tx_signature.0);
}

/// What the bytes `bytes` stand for as a transaction that only its sender has signed,
/// where they are the encoding of one.
pub open spec fn decode_transaction(bytes: Seq<u8>) -> Option<SenderSignedDataView> {
    if exists|d: SenderSignedDataView| enc_transaction(d) == bytes {
        Some(choose|d: SenderSignedDataView| enc_transaction(d) == bytes)
    } else {
        None
    }
}

/// What the bytes `bytes` stand for as a transaction that one authority has signed,
/// where they are the encoding of one.
pub open spec fn decode_signed_transaction(bytes: Seq<u8>) -> Option<
    (SenderSignedDataView, AuthoritySignInfo),
> {
    if exists|p: (SenderSignedDataView, AuthoritySignInfo)|
        enc_signed_transaction(p.0, p.1) == bytes {
        Some(
            choose|p: (SenderSignedDataView, AuthoritySignInfo)|
                enc_signed_transaction(p.0, p.1) == bytes,
        )
    } else {
        None
    }
}

/// What the bytes `bytes` stand for as a certificate, where they are the encoding of
/// one: the sender-signed data, the epoch, the signature and the signers.
pub open spec fn decode_certificate(bytes: Seq<u8>) -> Option<
    (SenderSignedDataView, EpochId, AggregateAuthoritySignature, Set<u32>),
> {
    if exists|p: (SenderSignedDataView, EpochId, AggregateAuthoritySignature, Set<u32>)|
        enc_certificate(p.0, p.1, p.2, p.3) == bytes {
        Some(
            choose|p: (SenderSignedDataView, EpochId, AggregateAuthoritySignature, Set<u32>)|
                enc_certificate(p.0, p.1, p.2, p.3) == bytes,
        )
    } else {
        None
    }
}

/// Decoding undoes encoding for a transaction that only its sender has signed, and
/// what is read has the digest of what was encoded.
pub proof fn lemma_transaction_round_trip(d: SenderSignedDataView)
    ensures
        decode_transaction(enc_transaction(d)) matches Some(w) && same_signed_data(w, d)
            && crate::envelope::digest_of(w) == crate::envelope::digest_of(d),
{
    let w = choose|w: SenderSignedDataView| enc_transaction(w) == enc_transaction(d);
    let empty = Seq::<u8>::empty();
    lemma_regroup(variant_tag(0), enc_sender_signed_data(w), empty);
    lemma_regroup(variant_tag(0), enc_sender_signed_data(d), empty);
    assert(enc_transaction(w) + empty == enc_transaction(d) + empty);
    lemma_tag_split(
        0,
        0,
        enc_sender_signed_data(w) + empty,
        enc_sender_signed_data(d) + empty,
    );
    lemma_sender_signed_data_split(w, d, empty, empty);
    crate::framing::lemma_cancel_tail(enc_sender_signed_data(w), enc_sender_signed_data(d), empty);
}

/// Transactions that one authority has signed and that have the same encoding are the
/// same, as far as they are encoded.
pub proof fn lemma_signed_transaction_same(
    a: SenderSignedDataView,
    ia: AuthoritySignInfo,
    b: SenderSignedDataView,
    ib: AuthoritySignInfo,
)
    requires
        enc_signed_transaction(a, ia) == enc_signed_transaction(b, ib),
    ensures
        same_signed_data(a, b),
        digest_of(a) == digest_of(b),
        ia == ib,
{
    let ta3 = ia.authority.0@ + ia.signature.0@;
    let tb3 = ib.authority.0@ + ib.signature.0@;
    let ta2 = u64_le(ia.epoch) + ta3;
    let tb2 = u64_le(ib.epoch) + tb3;
    let ta1 = enc_sender_signed_data(a) + ta2;
    let tb1 = enc_sender_signed_data(b) + tb2;
    assert(enc_signed_transaction(a, ia) =~= variant_tag(1) + ta1);
    assert(enc_signed_transaction(b, ib) =~= variant_tag(1) + tb1);
    lemma_tag_split(1, 1, ta1, tb1);
    lemma_sender_signed_data_split(a, b, ta2, tb2);
    crate::framing::lemma_cancel_tail(enc_sender_signed_data(a), enc_sender_signed_data(b), ta2);
    lemma_u64_split(ia.epoch, ib.epoch, ta3, tb3);
    lemma_same_length_split(ia.authority.0@, ib.authority.0@, ia.signature.0@, ib.signature.0@);
    assert(ia.authority.0 =~= ib.authority.0);
    assert(ia.signature.0 =~= ib.signature.0);
}

/// Decoding undoes encoding for a transaction that one authority has signed.
pub proof fn lemma_signed_transaction_round_trip(d: SenderSignedDataView, info: AuthoritySignInfo)
    ensures
        decode_signed_transaction(enc_signed_transaction(d, info)) matches Some(w)
            && same_signed_data(w.0, d) && w.1 == info,
{
    let bytes = enc_signed_transaction(d, info);
    let parts = (d, info);
    assert(enc_signed_transaction(parts.0, parts.1) == bytes);
    let w = choose|p: (SenderSignedDataView, AuthoritySignInfo)|
        enc_signed_transaction(p.0, p.1) == bytes;
    lemma_signed_transaction_same(w.0, w.1, d, info);
}

/// Certificates that have the same encoding are the same, as far as they are encoded.
pub proof fn lemma_certificate_same(
    a: SenderSignedDataView,
    ea: EpochId,
    sa: AggregateAuthoritySignature,
    ma: Set<u32>,
    b: SenderSignedDataView,
    eb: EpochId,
    sb: AggregateAuthoritySignature,
    mb: Set<u32>,
)
    requires
        enc_certificate(a, ea, sa, ma) == enc_certificate(b, eb, sb, mb),
    ensures
        same_signed_data(a, b),
        digest_of(a) == digest_of(b),
        ea == eb,
        sa == sb,
        ma == mb,
{
    let empty = Seq::<u8>::empty();
    let ta3 = sa.0@ + (enc_signers(ma) + empty);
    let tb3 = sb.0@ + (enc_signers(mb) + empty);
    let ta2 = u64_le(ea) + ta3;
    let tb2 = u64_le(eb) + tb3;
    let ta1 = enc_sender_signed_data(a) + ta2;
    let tb1 = enc_sender_signed_data(b) + tb2;
    assert(enc_certificate(a, ea, sa, ma) =~= variant_tag(2) + ta1);
    assert(enc_certificate(b, eb, sb, mb) =~= variant_tag(2) + tb1);
    lemma_tag_split(2, 2, ta1, tb1);
    lemma_sender_signed_data_split(a, b, ta2, tb2);
    crate::framing::lemma_cancel_tail(enc_sender_signed_data(a), enc_sender_signed_data(b), ta2);
    lemma_u64_split(ea, eb, ta3, tb3);
    lemma_same_length_split(sa.0@, sb.0@, enc_signers(ma) + empty, enc_signers(mb) + empty);
    assert(sa.0 =~= sb.0);
    lemma_u64_unambiguous();
    lemma_seq_split(members_of(ma), members_of(mb), empty, empty, |x: u64| u64_le(x));
    lemma_members_determine(ma, mb);
}

/// Decoding undoes encoding for a certificate.
pub proof fn lemma_certificate_round_trip(
    d: SenderSignedDataView,
    epoch: EpochId,
    signature: AggregateAuthoritySignature,
    signers: Set<u32>,
)
    ensures
        decode_certificate(enc_certificate(d, epoch, signature, signers)) matches Some(w)
            && same_signed_data(w.0, d) && w.1 == epoch && w.2 == signature && w.3 == signers,
{
    let bytes = enc_certificate(d, epoch, signature, signers);
    let parts = (d, epoch, signature, signers);
    assert(enc_certificate(parts.0, parts.1, parts.2, parts.3) == bytes);
    let w = choose|p: (SenderSignedDataView, EpochId, AggregateAuthoritySignature, Set<u32>)|
        enc_certificate(p.0, p.1, p.2, p.3) == bytes;
    lemma_certificate_same(w.0, w.1, w.2, w.3, d, epoch, signature, signers);
}

/// The states of an envelope do not read as one another: the encoding of a transaction
/// in one state is not the encoding of any transaction in another, and decodes as none.
pub proof fn lemma_states_are_told_apart(
    d: SenderSignedDataView,
    info: AuthoritySignInfo,
    epoch: EpochId,
    signature: AggregateAuthoritySignature,
    signers: Set<u32>,
)
    ensures
        decode_signed_transaction(enc_transaction(d)).is_none(),
        decode_certificate(enc_transaction(d)).is_none(),
        decode_transaction(enc_signed_transaction(d, info)).is_none(),
        decode_certificate(enc_signed_transaction(d, info)).is_none(),
        decode_transaction(enc_certificate(d, epoch, signature, signers)).is_none(),
        decode_signed_transaction(enc_certificate(d, epoch, signature, signers)).is_none(),
{
    assert(enc_transaction(d)[0] == 0);
    assert(enc_signed_transaction(d, info)[0] == 1);
    assert(enc_certificate(d, epoch, signature, signers)[0] == 2);
    assert forall|x: SenderSignedDataView| #[trigger] enc_transaction(x)[0] == 0 by {}
    assert forall|p: (SenderSignedDataView, AuthoritySignInfo)| #[trigger]
        enc_signed_transaction(p.0, p.1)[0] == 1 by {}
    assert forall|p: (SenderSignedDataView, EpochId, AggregateAuthoritySignature, Set<u32>)|
     #[trigger]
        enc_certificate(p.0, p.1, p.2, p.3)[0] == 2 by {}
}

/// Appends the encoding of a set of signers.
pub(crate) fn encode_signers(info: &AuthorityStrongQuorumSignInfo, out: &mut Vec<u8>)
    ensures
        final(out)@ == old(out)@ + enc_signers(info.signers()),
{
    let ghost start = out@;
    let ghost set = info.signers();
    let mut listed: Vec<u64> = Vec::new();
    match info.signers_map.max() {
        None => {
            proof {
                lemma_members_below_stable(set, 0, 0x1_0000_0000);
            }
        },
        Some(greatest) => {
            let mut i: u32 = 0;
            while i < greatest
                invariant
                    i <= greatest,
                    set == bitmap_members(info.signers_map),
                    listed@ == members_below(set, i as nat),
                decreases greatest - i,
            {
                if info.signers_map.contains(i) {
                    listed.push(i as u64);
                }
                i += 1;
            }
            listed.push(greatest as u64);
            proof {
                assert(listed@ == members_below(set, greatest as nat + 1));
                lemma_members_below_stable(set, greatest as nat + 1, 0x1_0000_0000);
            }
        },
    }
    assert(listed@ == members_of(set));
    write_uleb128(out, listed.len());
    let ghost head = out@;
    let mut k: usize = 0;
    while k < listed.len()
        invariant
            k <= listed.len(),
            out@ == head + concat_map(listed@.take(k as int), |x: u64| u64_le(x)),
        decreases listed.len() - k,
    {
        proof {
            lemma_concat_map_step(listed@, |x: u64| u64_le(x), k as int);
        }
        write_u64(out, listed[k]);
        assert(out@ =~= head + concat_map(listed@.take(k as int + 1), |x: u64| u64_le(x)));
        k += 1;
    }
    assert(listed@.take(listed.len() as int) =~= listed@);
    assert(out@ =~= start + enc_signers(set));
}

impl TransactionEnvelope<EmptySignInfo> {
    /// The encoding of the transaction.
    pub fn to_bytes(&self) -> (r: Vec<u8>)
        ensures
            r@ == enc_transaction(self.data()),
    {
        let mut out: Vec<u8> = Vec::new();
        write_tag(&mut out, 0);
        self.signed_data().encode(&mut out);
        assert(out@ =~= enc_transaction(self.data()));
        out
    }
}

impl TransactionEnvelope<AuthoritySignInfo> {
    /// The encoding of the signed transaction.
    pub fn to_bytes(&self) -> (r: Vec<u8>)
        ensures
            r@ == enc_signed_transaction(self.data(), self.auth()),
    {
        let mut out: Vec<u8> = Vec::new();
        write_tag(&mut out, 1);
        self.signed_data().encode(&mut out);
        let info = self.auth_sign_info();
        write_u64(&mut out, info.epoch);
        write_raw(&mut out, info.authority.as_bytes());
        write_raw(&mut out, info.signature.0.as_slice());
        assert(out@ =~= enc_signed_transaction(self.data(), self.auth()));
        out
    }
}

impl TransactionEnvelope<AuthorityStrongQuorumSignInfo> {
    /// The encoding of the certificate.
    pub fn to_bytes(&self) -> (r: Vec<u8>)
        ensures
            r@ == enc_certificate(
                self.data(),
                self.auth().epoch,
                self.auth().signature,
                self.auth().signers(),
            ),
    {
        let mut out: Vec<u8> = Vec::new();
        write_tag(&mut out, 2);
        self.signed_data().encode(&mut out);
        let info = self.auth_sign_info();
        write_u64(&mut out, info.epoch);
        write_raw(&mut out, info.signature.0.as_slice());
        encode_signers(info, &mut out);
        assert(out@ =~= enc_certificate(
            self.data(),
            self.auth().epoch,
            self.auth().signature,
            self.auth().signers(),
        ));
        out
    }
}

} // verus!
