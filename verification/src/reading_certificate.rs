//! Reading certificates back.

use crate::codec::{concat_encodings, lemma_concat_encodings, u64_le, uleb128, variant_tag, Encode};
use crate::crypto::AggregateAuthoritySignature;
use crate::envelope::{SenderSignedData, TransactionEnvelope};
use crate::envelope_wire::{
    enc_certificate, enc_signers, lemma_members_below_contains, members_below, members_of,
};
use crate::framing::{lemma_seq_split, lemma_u64_unambiguous};
use crate::quorum::AuthorityStrongQuorumSignInfo;
use crate::reading::{lemma_join, lemma_skip_splits, read_tag, Decode};
use crate::reading_kinds::vec_encoding;
use crate::sign_info::bitmap_members;
use crate::transaction::EpochId;
use crate::wire_laws::lemma_tag_split;
use roaring::RoaringBitmap;
use vstd::prelude::*;

verus! {

/// Whether the numbers of `l` strictly increase.
pub open spec fn increasing(l: Seq<u64>) -> bool {
    forall|i: int, j: int| 0 <= i < j < l.len() ==> #[trigger] l[i] < #[trigger] l[j]
}

/// The list of the numbers of a set below a bound increases and stays below the bound.
pub proof fn lemma_members_below_increasing(set: Set<u32>, bound: nat)
    requires
        bound <= 0x1_0000_0000,
    ensures
        increasing(members_below(set, bound)),
        forall|i: int|
            0 <= i < members_below(set, bound).len() ==> #[trigger] members_below(set, bound)[i]
                < bound,
    decreases bound,
{
    if bound > 0 {
        lemma_members_below_increasing(set, (bound - 1) as nat);
    }
}

/// Two increasing lists with the same numbers are the same list.
pub proof fn lemma_increasing_unique(s1: Seq<u64>, s2: Seq<u64>)
    requires
        increasing(s1),
        increasing(s2),
        forall|k: u64| s1.contains(k) <==> s2.contains(k),
    ensures
        s1 == s2,
    decreases s1.len(),
{
    if s1.len() == 0 {
        if s2.len() > 0 {
            assert(s2.contains(s2[0]));
        }
        assert(s1 =~= s2);
    } else {
        let a = s1.last();
        assert(s1.contains(a));
        let j = choose|j: int| 0 <= j < s2.len() && s2[j] == a;
        let b = s2.last();
        assert(s2.contains(b));
        let i = choose|i: int| 0 <= i < s1.len() && s1[i] == b;
        if j < s2.len() - 1 {
            assert(s2[j] < s2[s2.len() - 1]);
            if i < s1.len() - 1 {
                assert(s1[i] < s1[s1.len() - 1]);
            }
        }
        assert(a == b);
        let t1 = s1.drop_last();
        let t2 = s2.drop_last();
        assert forall|k: u64| t1.contains(k) <==> t2.contains(k) by {
            if t1.contains(k) {
                let x = choose|x: int| 0 <= x < t1.len() && t1[x] == k;
                assert(s1[x] < s1[s1.len() - 1]);
                assert(s1.contains(k));
                let y = choose|y: int| 0 <= y < s2.len() && s2[y] == k;
                assert(t2[y] == k);
            }
            if t2.contains(k) {
                let x = choose|x: int| 0 <= x < t2.len() && t2[x] == k;
                assert(s2[x] < s2[s2.len() - 1]);
                assert(s2.contains(k));
                let y = choose|y: int| 0 <= y < s1.len() && s1[y] == k;
                assert(t1[y] == k);
            }
        }
        assert(increasing(t1)) by {
            assert forall|x: int, y: int| 0 <= x < y < t1.len() implies #[trigger] t1[x]
                < #[trigger] t1[y] by {
                assert(s1[x] < s1[y]);
            }
        }
        assert(increasing(t2)) by {
            assert forall|x: int, y: int| 0 <= x < y < t2.len() implies #[trigger] t2[x]
                < #[trigger] t2[y] by {
                assert(s2[x] < s2[y]);
            }
        }
        lemma_increasing_unique(t1, t2);
        assert(s1 =~= t1.push(a));
        assert(s2 =~= t2.push(b));
    }
}

/// An increasing list of numbers that a `u32` holds is the list of the numbers of the
/// set of its items.
pub proof fn lemma_list_is_members(l: Seq<u64>, set: Set<u32>)
    requires
        increasing(l),
        forall|i: int| 0 <= i < l.len() ==> #[trigger] l[i] <= u32::MAX,
        forall|x: u32| set.contains(x) <==> l.contains(x as u64),
    ensures
        members_of(set) == l,
{
    let m = members_of(set);
    lemma_members_below_increasing(set, 0x1_0000_0000);
    assert forall|k: u64| m.contains(k) <==> l.contains(k) by {
        if m.contains(k) {
            let i = choose|i: int| 0 <= i < m.len() && m[i] == k;
            assert(m[i] < 0x1_0000_0000);
            lemma_members_below_contains(set, 0x1_0000_0000, k as u32);
        }
        if l.contains(k) {
            let i = choose|i: int| 0 <= i < l.len() && l[i] == k;
            assert(l[i] <= u32::MAX);
            lemma_members_below_contains(set, 0x1_0000_0000, k as u32);
        }
    }
    lemma_increasing_unique(m, l);
}

/// The set with the numbers of `list`, where they increase and a `u32` holds each.
pub(crate) fn signers_from_list(list: &Vec<u64>) -> (r: Option<RoaringBitmap>)
    ensures
        r matches Some(map) ==> members_of(bitmap_members(map)) == list@,
        r is None ==> !(increasing(list@) && forall|i: int|
            0 <= i < list@.len() ==> #[trigger] list@[i] <= u32::MAX),
{
    let mut map = RoaringBitmap::new();
    let mut i: usize = 0;
    while i < list.len()
        invariant
            i <= list.len(),
            increasing(list@.take(i as int)),
            forall|k: int| 0 <= k < i ==> #[trigger] list@[k] <= u32::MAX,
            forall|x: u32| bitmap_members(map).contains(x) <==> list@.take(i as int).contains(x as u64),
        decreases list.len() - i,
    {
        let x = list[i];
        if x > u32::MAX as u64 {
            return None;
        }
        if i > 0 && list[i - 1] >= x {
            assert(!(list@[i as int - 1] < list@[i as int]));
            return None;
        }
        let ghost before = bitmap_members(map);
        map.insert(x as u32);
        proof {
            let t0 = list@.take(i as int);
            let t1 = list@.take(i as int + 1);
            assert(increasing(t1)) by {
                assert forall|a: int, b: int| 0 <= a < b < t1.len() implies #[trigger] t1[a]
                    < #[trigger] t1[b] by {
                    if b < i {
                        assert(t0[a] < t0[b]);
                    } else if a < i - 1 {
                        assert(t0[a] < t0[i as int - 1]);
                    }
                }
            }
            assert forall|y: u32| bitmap_members(map).contains(y) <==> t1.contains(y as u64) by {
                if t1.contains(y as u64) {
                    let k = choose|k: int| 0 <= k < t1.len() && t1[k] == y as u64;
                    if k < i {
                        assert(t0[k] == y as u64);
                    }
                }
                if before.contains(y) {
                    let k = choose|k: int| 0 <= k < t0.len() && t0[k] == y as u64;
                    assert(t1[k] == y as u64);
                }
                if y == x as u32 {
                    assert(t1[i as int] == y as u64);
                }
            }
        }
        i += 1;
    }
    proof {
        assert(list@.take(list@.len() as int) =~= list@);
        lemma_list_is_members(list@, bitmap_members(map));
    }
    Some(map)
}

/// The encodings of so many numbers are eight times so many bytes.
pub proof fn lemma_numbers_length(s: Seq<u64>)
    ensures
        concat_encodings(s).len() == 8 * s.len(),
    decreases s.len(),
{
    vstd::bytes::lemma_auto_spec_u64_to_from_le_bytes();
    if s.len() > 0 {
        lemma_numbers_length(s.drop_last());
        assert(s.last().encoding() == u64_le(s.last()));
    }
}

/// Reads a list of numbers behind its length.
pub fn read_numbers(bytes: &[u8], pos: usize) -> (r: Option<(Vec<u64>, usize)>)
    requires
        pos <= bytes@.len(),
    ensures
        r matches Some((v, next)) ==> pos <= next <= bytes@.len() && bytes@.subrange(
            pos as int,
            next as int,
        ) == vec_encoding(v@),
        r is None ==> forall|s: Seq<u64>, tail: Seq<u8>|
            bytes@.skip(pos as int) != #[trigger] (vec_encoding(s) + tail),
{
    let total = bytes.len();
    let (n, start) = match crate::reading::read_len(bytes, pos) {
        Some(x) => x,
        None => {
            assert forall|s: Seq<u64>, tail: Seq<u8>| bytes@.skip(pos as int)
                != #[trigger] (vec_encoding(s) + tail) by {
                crate::framing::lemma_regroup(uleb128(s.len()), concat_encodings(s), tail);
                if s.len() <= usize::MAX {
                    let n: usize = s.len() as usize;
                    assert(vec_encoding(s) + tail == uleb128(n as nat) + (concat_encodings(s)
                        + tail));
                } else {
                    lemma_numbers_length(s);
                    assert(bytes@.skip(pos as int).len() <= total);
                    assert((vec_encoding(s) + tail).len() >= 8 * s.len());
                }
            }
            return None;
        },
    };
    proof {
        lemma_skip_splits(bytes@, pos as int, start as int);
    }
    if (bytes.len() - start) / 8 < n {
        assert forall|s: Seq<u64>, tail: Seq<u8>| bytes@.skip(pos as int)
            != #[trigger] (vec_encoding(s) + tail) by {
            if bytes@.skip(pos as int) == vec_encoding(s) + tail {
                crate::framing::lemma_regroup(uleb128(s.len()), concat_encodings(s), tail);
                crate::framing::lemma_uleb128_split(
                    n as nat,
                    s.len(),
                    bytes@.skip(start as int),
                    concat_encodings(s) + tail,
                );
                lemma_numbers_length(s);
                assert((concat_encodings(s) + tail).len() >= 8 * n);
            }
        }
        return None;
    }
    let mut out: Vec<u64> = Vec::new();
    let mut cur: usize = start;
    let mut i: usize = 0;
    while i < n
        invariant
            i <= n,
            pos < start <= cur <= bytes@.len(),
            cur == start + 8 * i,
            start + 8 * n <= bytes@.len(),
            out@.len() == i,
            bytes@.subrange(pos as int, start as int) == uleb128(n as nat),
            bytes@.subrange(start as int, cur as int) == concat_encodings(out@),
        decreases n - i,
    {
        match u64::decode(bytes, cur) {
            Some((x, next)) => {
                proof {
                    vstd::bytes::lemma_auto_spec_u64_to_from_le_bytes();
                    let after = out@.push(x);
                    assert(after.drop_last() =~= out@);
                    lemma_join(bytes@, start as int, cur as int, next as int);
                    assert(x.encoding() == u64_le(x));
                    assert(next == cur + 8);
                }
                out.push(x);
                cur = next;
            },
            None => {
                proof {
                    vstd::bytes::lemma_auto_spec_u64_to_from_le_bytes();
                    let piece = bytes@.subrange(cur as int, cur as int + 8);
                    let y = vstd::bytes::spec_u64_from_le_bytes(piece);
                    assert(y.encoding() == u64_le(y));
                    assert(u64_le(y) == piece);
                    lemma_skip_splits(bytes@, cur as int, cur as int + 8);
                    assert(bytes@.skip(cur as int) == y.encoding() + bytes@.skip(cur as int + 8));
                    assert(false);
                }
                return None;
            },
        }
        i += 1;
    }
    proof {
        lemma_join(bytes@, pos as int, start as int, cur as int);
    }
    Some((out, cur))
}

/// What follows the sender-signed data in the encoding of a certificate.
pub open spec fn certificate_tail(
    epoch: EpochId,
    signature: AggregateAuthoritySignature,
    signers: Set<u32>,
) -> Seq<u8> {
    epoch.encoding() + (signature.encoding() + (vec_encoding(members_of(signers))
        + Seq::<u8>::empty()))
}

/// The encoding of a certificate is the index of its state, the sender-signed data, and
/// what follows them.
pub proof fn lemma_certificate_parts(
    w: SenderSignedData,
    epoch: EpochId,
    signature: AggregateAuthoritySignature,
    signers: Set<u32>,
)
    ensures
        enc_certificate(w@, epoch, signature, signers) == variant_tag(2) + (w.encoding()
            + certificate_tail(epoch, signature, signers)),
        enc_signers(signers) == vec_encoding(members_of(signers)),
{
    lemma_concat_encodings(members_of(signers), |x: u64| u64_le(x));
    assert(enc_certificate(w@, epoch, signature, signers) =~= variant_tag(2) + (w.encoding()
        + certificate_tail(epoch, signature, signers)));
}

impl TransactionEnvelope<AuthorityStrongQuorumSignInfo> {
    /// The certificate whose encoding `bytes` are, with no digest kept and without the
    /// mark of verification. Hands out nothing where they are the encoding of none.
    pub fn from_bytes(bytes: &[u8]) -> (r: Option<Self>)
        ensures
            r matches Some(t) ==> enc_certificate(
                t.data(),
                t.auth().epoch,
                t.auth().signature,
                t.auth().signers(),
            ) == bytes@ && !t.verified_mark() && t.kept_digest().is_none(),
            r is None ==> forall|
                w: SenderSignedData,
                epoch: EpochId,
                signature: AggregateAuthoritySignature,
                signers: Set<u32>,
            |
                w.is_readable() ==>
                    #[trigger] enc_certificate(w@, epoch, signature, signers) != bytes@,
    {
        let (tag, at1) = match read_tag(bytes, 0) {
            Some(x) => x,
            None => {
                assert forall|
                    w: SenderSignedData,
                    epoch: EpochId,
                    signature: AggregateAuthoritySignature,
                    signers: Set<u32>,
                | #[trigger] enc_certificate(w@, epoch, signature, signers) != bytes@ by {
                    assert(enc_certificate(w@, epoch, signature, signers).len() > 0);
                }
                return None;
            },
        };
        proof {
            lemma_skip_splits(bytes@, 0, 1);
            assert(bytes@.skip(0) =~= bytes@);
            assert(bytes@.subrange(0, 1) =~= variant_tag(tag));
            assert forall|
                w: SenderSignedData,
                epoch: EpochId,
                signature: AggregateAuthoritySignature,
                signers: Set<u32>,
            | #[trigger] enc_certificate(w@, epoch, signature, signers) == bytes@ implies tag == 2
                && bytes@.skip(1) == w.encoding() + certificate_tail(epoch, signature, signers) by {
                lemma_certificate_parts(w, epoch, signature, signers);
                lemma_tag_split(
                    tag,
                    2,
                    bytes@.skip(1),
                    w.encoding() + certificate_tail(epoch, signature, signers),
                );
            }
        }
        if tag != 2 {
            return None;
        }
        let (signed_data, at2) = match SenderSignedData::decode(bytes, 1) {
            Some(x) => x,
            None => {
                return None;
            },
        };
        proof {
            lemma_skip_splits(bytes@, 1, at2 as int);
            assert forall|
                w: SenderSignedData,
                epoch: EpochId,
                signature: AggregateAuthoritySignature,
                signers: Set<u32>,
            | #[trigger] enc_certificate(w@, epoch, signature, signers) == bytes@
                implies bytes@.skip(at2 as int) == certificate_tail(epoch, signature, signers) by {
                SenderSignedData::lemma_split(
                    signed_data,
                    w,
                    bytes@.skip(at2 as int),
                    certificate_tail(epoch, signature, signers),
                );
            }
        }
        let (epoch, at3) = match u64::decode(bytes, at2) {
            Some(x) => x,
            None => {
                return None;
            },
        };
        proof {
            lemma_skip_splits(bytes@, at2 as int, at3 as int);
            assert forall|
                w: SenderSignedData,
                other: EpochId,
                signature: AggregateAuthoritySignature,
                signers: Set<u32>,
            | #[trigger] enc_certificate(w@, other, signature, signers) == bytes@
                implies other == epoch
                && bytes@.skip(at3 as int)
                    == signature.encoding()
                    + (vec_encoding(members_of(signers)) + Seq::<u8>::empty()) by {
                u64::lemma_split(
                    epoch,
                    other,
                    bytes@.skip(at3 as int),
                    signature.encoding() + (vec_encoding(members_of(signers))
                        + Seq::<u8>::empty()),
                );
                crate::framing::lemma_u64_split(
                    epoch,
                    other,
                    bytes@.skip(at3 as int),
                    signature.encoding() + (vec_encoding(members_of(signers))
                        + Seq::<u8>::empty()),
                );
            }
        }
        let (signature, at4) = match AggregateAuthoritySignature::decode(bytes, at3) {
            Some(x) => x,
            None => {
                return None;
            },
        };
        proof {
            lemma_skip_splits(bytes@, at3 as int, at4 as int);
            assert forall|
                w: SenderSignedData,
                other: EpochId,
                sig: AggregateAuthoritySignature,
                signers: Set<u32>,
            | #[trigger] enc_certificate(w@, other, sig, signers) == bytes@ implies bytes@.skip(
                at4 as int,
            ) == vec_encoding(members_of(signers)) + Seq::<u8>::empty() by {
                AggregateAuthoritySignature::lemma_split(
                    signature,
                    sig,
                    bytes@.skip(at4 as int),
                    vec_encoding(members_of(signers)) + Seq::<u8>::empty(),
                );
            }
        }
        let (list, at5) = match read_numbers(bytes, at4) {
            Some(x) => x,
            None => {
                assert forall|
                    w: SenderSignedData,
                    other: EpochId,
                    sig: AggregateAuthoritySignature,
                    signers: Set<u32>,
                | #[trigger] enc_certificate(w@, other, sig, signers) != bytes@ by {
                    if enc_certificate(w@, other, sig, signers) == bytes@ {
                        assert(bytes@.skip(at4 as int) == vec_encoding(members_of(signers))
                            + Seq::<u8>::empty());
                    }
                }
                return None;
            },
        };
        proof {
            lemma_skip_splits(bytes@, at4 as int, at5 as int);
            lemma_concat_encodings(list@, |x: u64| u64_le(x));
            assert forall|
                w: SenderSignedData,
                other: EpochId,
                sig: AggregateAuthoritySignature,
                signers: Set<u32>,
            | #[trigger] enc_certificate(w@, other, sig, signers) == bytes@
                implies list@ == members_of(signers) && bytes@.skip(at5 as int).len() == 0 by {
                lemma_concat_encodings(members_of(signers), |x: u64| u64_le(x));
                lemma_u64_unambiguous();
                lemma_seq_split(
                    list@,
                    members_of(signers),
                    bytes@.skip(at5 as int),
                    Seq::<u8>::empty(),
                    |x: u64| u64_le(x),
                );
            }
        }
        if at5 != bytes.len() {
            return None;
        }
        let map = match signers_from_list(&list) {
            Some(map) => map,
            None => {
                assert forall|
                    w: SenderSignedData,
                    other: EpochId,
                    sig: AggregateAuthoritySignature,
                    signers: Set<u32>,
                | #[trigger] enc_certificate(w@, other, sig, signers) != bytes@ by {
                    if enc_certificate(w@, other, sig, signers) == bytes@ {
                        lemma_members_below_increasing(signers, 0x1_0000_0000);
                    }
                }
                return None;
            },
        };
        let info = AuthorityStrongQuorumSignInfo { epoch, signature, signers_map: map };
        proof {
            lemma_certificate_parts(signed_data, epoch, signature, info.signers());
            lemma_join(bytes@, at3 as int, at4 as int, at5 as int);
            lemma_join(bytes@, at2 as int, at3 as int, at5 as int);
            lemma_join(bytes@, 1, at2 as int, at5 as int);
            lemma_join(bytes@, 0, 1, at5 as int);
            assert(bytes@.subrange(0, at5 as int) =~= bytes@);
            assert(certificate_tail(epoch, signature, info.signers()) =~= epoch.encoding()
                + (signature.encoding() + vec_encoding(list@)));
        }
        Some(TransactionEnvelope::assemble(signed_data, info))
    }
}

/// Reading undoes encoding for a certificate, and the certificate read has the digest
/// of the one encoded.
pub proof fn lemma_certificate_reads_back(
    x: SenderSignedData,
    epoch: EpochId,
    signature: AggregateAuthoritySignature,
    signers: Set<u32>,
    bytes: &[u8],
    r: Option<TransactionEnvelope<AuthorityStrongQuorumSignInfo>>,
)
    requires
        x.is_readable(),
        bytes@ == enc_certificate(x@, epoch, signature, signers),
        call_ensures(TransactionEnvelope::<AuthorityStrongQuorumSignInfo>::from_bytes, (bytes,), r),
    ensures
        r matches Some(t) && crate::envelope_wire::same_signed_data(t.data(), x@)
            && t.auth().epoch == epoch && t.auth().signature == signature
            && t.auth().signers() == signers
            && crate::envelope::digest_of(t.data()) == crate::envelope::digest_of(x@),
{
    let t = r->0;
    crate::envelope_wire::lemma_certificate_same(
        t.data(),
        t.auth().epoch,
        t.auth().signature,
        t.auth().signers(),
        x@,
        epoch,
        signature,
        signers,
    );
}

} // verus!
