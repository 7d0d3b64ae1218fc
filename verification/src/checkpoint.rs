//! The shape of the checkpoint messages that travel with transactions.

use crate::codec::{bytes_with_len, u64_le, write_bytes, write_u64, Encode};
use crate::committee::Committee;
use crate::error::{SuiError, SuiResult};
use crate::quorum::AuthorityStrongQuorumSignInfo;
use crate::sign_info::{authority_info_check, authority_info_valid, AuthoritySignInfo};
use vstd::prelude::*;

verus! {

/// The number of a checkpoint.
pub type CheckpointSequenceNumber = u64;

/// What an authority proposes for a checkpoint: its number, and a summary of the
/// transactions that the authority would put in it.
#[derive(Debug, PartialEq, Eq)]
pub struct CheckpointProposalSummary {
    pub sequence_number: CheckpointSequenceNumber,
    pub waypoint: Vec<u8>,
}

/// The encoding of a proposal.
pub open spec fn enc_proposal(p: CheckpointProposalSummary) -> Seq<u8> {
    u64_le(p.sequence_number) + bytes_with_len(p.waypoint@)
}

impl Encode for CheckpointProposalSummary {
    open spec fn encoding(&self) -> Seq<u8> {
        enc_proposal(*self)
    }

    fn encode(&self, out: &mut Vec<u8>) {
        assert(self.encoding() == enc_proposal(*self));
        let ghost start = out@;
        write_u64(out, self.sequence_number);
        write_bytes(out, self.waypoint.as_slice());
        assert(out@ =~= start + enc_proposal(*self));
    }
}

/// A proposal with the signature of the authority that makes it.
#[derive(Debug, PartialEq, Eq)]
pub struct SignedCheckpointProposalSummary {
    pub summary: CheckpointProposalSummary,
    pub auth_signature: AuthoritySignInfo,
}

impl SignedCheckpointProposalSummary {
    /// Whether the signature is that of an authority of `committee` on the proposal.
    pub open spec fn is_valid(&self, committee: &Committee) -> bool {
        authority_info_valid(self.auth_signature, enc_proposal(self.summary), committee)
    }

    /// Checks that the signature is that of an authority of `committee` on the
    /// proposal.
    pub fn verify(&self, committee: &Committee) -> (r: SuiResult)
        ensures
            r.is_ok() == self.is_valid(committee),
            r matches Err(e) ==> e == (match authority_info_check(self.auth_signature, committee) {
                Err(e0) => e0,
                Ok(_) => SuiError::InvalidSignature,
            }),
    {
        let mut bytes: Vec<u8> = Vec::new();
        self.summary.encode(&mut bytes);
        self.auth_signature.verify(bytes, committee)
    }
}

/// The proposals of two authorities for one checkpoint, with what tells them apart.
#[derive(Debug, PartialEq, Eq)]
pub struct CheckpointFragment {
    pub proposer: SignedCheckpointProposalSummary,
    pub other: SignedCheckpointProposalSummary,
    pub diff: Vec<u8>,
}

impl CheckpointFragment {
    /// Whether the fragment verifies under `committee`: both proposals are for one
    /// checkpoint, and each carries the signature of an authority of the committee.
    pub open spec fn is_valid(&self, committee: &Committee) -> bool {
        &&& self.proposer.summary.sequence_number == self.other.summary.sequence_number
        &&& self.proposer.is_valid(committee)
        &&& self.other.is_valid(committee)
    }

    /// The number of the checkpoint that the proposer proposes.
    pub fn proposer_sequence_number(&self) -> (r: CheckpointSequenceNumber)
        ensures
            r == self.proposer.summary.sequence_number,
    {
        self.proposer.summary.sequence_number
    }

    /// Checks the fragment: the two proposals are for one checkpoint, then the
    /// signature of the proposer, then that of the other.
    pub fn verify(&self, committee: &Committee) -> (r: SuiResult)
        ensures
            r.is_ok() == self.is_valid(committee),
            r matches Err(e) ==>
                e == (if self.proposer.summary.sequence_number
                != self.other.summary.sequence_number {
                SuiError::InconsistentCheckpointFragment
            } else if !self.proposer.is_valid(committee) {
                match authority_info_check(self.proposer.auth_signature, committee) {
                    Err(e0) => e0,
                    Ok(_) => SuiError::InvalidSignature,
                }
            } else {
                match authority_info_check(self.other.auth_signature, committee) {
                    Err(e0) => e0,
                    Ok(_) => SuiError::InvalidSignature,
                }
            }),
    {
        if self.proposer.summary.sequence_number != self.other.summary.sequence_number {
            return Err(SuiError::InconsistentCheckpointFragment);
        }
        self.proposer.verify(committee)?;
        self.other.verify(committee)
    }
}

/// A checkpoint as an authority hands it out: none yet, one that it signed, or one that
/// a quorum certified.
#[derive(Debug)]
pub enum AuthenticatedCheckpoint {
    Unavailable,
    Signed(SignedCheckpointProposalSummary),
    Certified(CheckpointProposalSummary, AuthorityStrongQuorumSignInfo),
}

} // verus!
