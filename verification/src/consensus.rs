//! The messages that authorities hand to consensus.

use crate::base_types::{AuthorityName, SequenceNumber};
use crate::certified::CertifiedTransaction;
use crate::checkpoint::CheckpointFragment;
use crate::committee::Committee;
use crate::certified::certificate_valid;
use crate::codec::{u64_le, write_u64};
use crate::envelope::digest_of;
use crate::error::SuiResult;
use byteorder::{BigEndian, ReadBytesExt};
use std::collections::hash_map::DefaultHasher;
use std::hash::Hasher;
use vstd::prelude::*;
use vstd::std_specs::hash::DefaultHasherAdditionalSpecFns;

verus! {

/// The number that eight bytes stand for, the most significant first.
pub open spec fn be_u64(bytes: Seq<u8>) -> int {
    ((((((bytes[0] as int * 256 + bytes[1] as int) * 256 + bytes[2] as int) * 256
        + bytes[3] as int) * 256 + bytes[4] as int) * 256 + bytes[5] as int) * 256
        + bytes[6] as int) * 256 + bytes[7] as int
}

/// `byteorder::ReadBytesExt::read_u64::<BigEndian>` on eight bytes: the number that
/// they stand for, the most significant first.
#[verifier::external_body]
fn read_be_u64(bytes: &[u8; 8]) -> (r: u64)
    ensures
        r == be_u64(bytes@),
{
    (&bytes[..]).read_u64::<BigEndian>().unwrap_or_default()
}

/// The eight bytes of `x`, the most significant first.
pub fn u64_to_be_bytes(x: u64) -> (r: [u8; 8])
    ensures
        be_u64(r@) == x,
{
    let b7 = (x % 256) as u8;
    let x6 = x / 256;
    let b6 = (x6 % 256) as u8;
    let x5 = x6 / 256;
    let b5 = (x5 % 256) as u8;
    let x4 = x5 / 256;
    let b4 = (x4 % 256) as u8;
    let x3 = x4 / 256;
    let b3 = (x3 % 256) as u8;
    let x2 = x3 / 256;
    let b2 = (x2 % 256) as u8;
    let x1 = x2 / 256;
    let b1 = (x1 % 256) as u8;
    let x0 = x1 / 256;
    let b0 = (x0 % 256) as u8;
    assert(x0 < 256);
    [b0, b1, b2, b3, b4, b5, b6, b7]
}

/// What consensus put in order, as it comes out.
#[derive(Clone, Debug)]
pub struct ConsensusOutput {
    pub message: Vec<u8>,
    pub sequence_number: SequenceNumber,
}

/// A request to catch up with the output of consensus.
#[derive(Debug)]
pub struct ConsensusSync {
    pub sequence_number: SequenceNumber,
}

/// What a message to consensus carries.
#[derive(Debug)]
pub enum ConsensusTransactionKind {
    UserTransaction(Box<CertifiedTransaction>),
    Checkpoint(Box<CheckpointFragment>),
}

/// A message to consensus. The tracking id serves to follow the message through the
/// logs and nothing else.
#[derive(Debug)]
pub struct ConsensusTransaction {
    /// A number to trace the message by, as bytes, so that its encoding is stable.
    pub tracking_id: [u8; 8],
    pub kind: ConsensusTransactionKind,
}

impl ConsensusTransaction {
    /// The message that carries `certificate`, traced by a hash of its digest and of
    /// `authority`.
    pub fn new_certificate_message(
        authority: &AuthorityName,
        certificate: CertifiedTransaction,
    ) -> (r: Self)
        ensures
            r.kind matches ConsensusTransactionKind::UserTransaction(c)
                && c.data() == certificate.data() && c.auth() == certificate.auth()
                && c.verified_mark() == certificate.verified_mark(),
            be_u64(r.tracking_id@) == DefaultHasher::spec_finish(
                seq![digest_of(certificate.data()).0@, authority.0@],
            ),
    {
        let mut certificate = certificate;
        let mut hasher = DefaultHasher::new();
        let tx_digest = certificate.digest();
        hasher.write(tx_digest.as_bytes());
        hasher.write(authority.as_bytes());
        assert(hasher@ =~= seq![digest_of(certificate.data()).0@, authority.0@]);
        let tracking_id = u64_to_be_bytes(hasher.finish());
        ConsensusTransaction {
            tracking_id,
            kind: ConsensusTransactionKind::UserTransaction(Box::new(certificate)),
        }
    }

    /// The message that carries `fragment`, traced by a hash of the checkpoint's number
    /// and of the two authorities.
    pub fn new_checkpoint_message(fragment: CheckpointFragment) -> (r: Self)
        ensures
            r.kind == ConsensusTransactionKind::Checkpoint(Box::new(fragment)),
            be_u64(r.tracking_id@) == DefaultHasher::spec_finish(
                seq![
                    u64_le(fragment.proposer.summary.sequence_number),
                    fragment.proposer.auth_signature.authority.0@,
                    fragment.other.auth_signature.authority.0@,
                ],
            ),
    {
        let mut hasher = DefaultHasher::new();
        let cp_seq = fragment.proposer_sequence_number();
        let proposer = fragment.proposer.auth_signature.authority;
        let other = fragment.other.auth_signature.authority;
        let mut seq_bytes: Vec<u8> = Vec::new();
        write_u64(&mut seq_bytes, cp_seq);
        hasher.write(seq_bytes.as_slice());
        hasher.write(proposer.as_bytes());
        hasher.write(other.as_bytes());
        assert(hasher@ =~= seq![
            u64_le(fragment.proposer.summary.sequence_number),
            fragment.proposer.auth_signature.authority.0@,
            fragment.other.auth_signature.authority.0@,
        ]);
        let tracking_id = u64_to_be_bytes(hasher.finish());
        ConsensusTransaction {
            tracking_id,
            kind: ConsensusTransactionKind::Checkpoint(Box::new(fragment)),
        }
    }

    /// The tracking id as a number.
    pub fn get_tracking_id(&self) -> (r: u64)
        ensures
            r == be_u64(self.tracking_id@),
    {
        read_be_u64(&self.tracking_id)
    }

    /// Verifies what the message carries, as that verifies itself.
    pub fn verify(&self, committee: &Committee) -> (r: SuiResult<()>)
        ensures
            r.is_ok() == (match self.kind {
                ConsensusTransactionKind::UserTransaction(c) => certificate_valid(
                    c.verified_mark(),
                    c.data(),
                    c.auth(),
                    committee,
                ),
                ConsensusTransactionKind::Checkpoint(f) => f.is_valid(committee),
            }),
    {
        match &self.kind {
            ConsensusTransactionKind::UserTransaction(certificate) => certificate.verify(committee),
            ConsensusTransactionKind::Checkpoint(fragment) => fragment.verify(committee),
        }
    }
}

} // verus!
