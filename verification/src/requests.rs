//! The requests that clients and authorities exchange about accounts, objects,
//! transactions and committees, and the answers to them.

use crate::base_types::{
    AccountAddress, AuthorityName, ObjectID, ObjectRef, SequenceNumber, SuiAddress,
    TransactionDigest, TransactionEffectsDigest, TxSequenceNumber,
};
use crate::certified::{CertifiedTransaction, SignedTransaction, Transaction};
use crate::checkpoint::{AuthenticatedCheckpoint, CheckpointSequenceNumber};
use crate::codec::{u64_le, uleb128, write_raw, write_u64, write_uleb128};
use crate::committee::StakeUnit;
use crate::crypto::{sha3_256, sha3_hash_bytes};
use crate::effects::{CertifiedTransactionEffects, SignedTransactionEffects};
use crate::object::Object;
use crate::sign_info::AuthoritySignInfo;
use crate::transaction::EpochId;
use vstd::prelude::*;
use vstd::std_specs::convert::FromSpecImpl;

verus! {

/// A certificate with the signed effects of its execution.
pub type TxCertAndSignedEffects = (CertifiedTransaction, SignedTransactionEffects);

/// Whether a transaction is confirmed to be executed on this node before the answer
/// returns.
pub type IsTransactionExecutedLocally = bool;

/// The digest of an answer about a committee.
pub type CommitteeInfoResponseDigest = [u8; 32];

/// How the layout of an object is to be given.
#[derive(Clone, Copy, Debug, PartialEq, Eq, Hash, Structural)]
pub struct ObjectFormatOptions {
    /// Whether the layout names the types of the fields.
    pub include_types: bool,
}

/// The layout of a Move struct, in its canonical encoding.
#[derive(Debug, PartialEq, Eq)]
pub struct MoveStructLayout {
    pub encoded: Vec<u8>,
}

/// The digests of a transaction and of its effects.
#[derive(Clone, Copy, Debug, PartialEq, Eq, Hash)]
pub struct ExecutionDigests {
    pub transaction: TransactionDigest,
    pub effects: TransactionEffectsDigest,
}

/// A batch of the log of an authority, signed by it.
#[derive(Clone, Copy, Debug, PartialEq, Eq, Hash)]
pub struct SignedBatch {
    /// The sequence number of the first transaction after the batch.
    pub next_sequence_number: TxSequenceNumber,
    /// The sequence number of the first transaction of the batch.
    pub initial_sequence_number: TxSequenceNumber,
    /// The number of transactions in the batch.
    pub size: u64,
    pub auth_signature: AuthoritySignInfo,
}

/// An item of the log of an authority: a transaction at its position, or a batch.
#[derive(Clone, Copy, Debug, PartialEq, Eq)]
pub enum UpdateItem {
    Transaction((TxSequenceNumber, ExecutionDigests)),
    Batch(SignedBatch),
}

/// A request for what an account owns.
#[derive(Clone, Copy, Debug, PartialEq, Eq, Hash)]
pub struct AccountInfoRequest {
    pub account: SuiAddress,
}

impl From<SuiAddress> for AccountInfoRequest {
    fn from(account: SuiAddress) -> (r: Self) {
        AccountInfoRequest { account }
    }
}

impl FromSpecImpl<SuiAddress> for AccountInfoRequest {
    open spec fn obeys_from_spec() -> bool {
        true
    }

    open spec fn from_spec(account: SuiAddress) -> Self {
        AccountInfoRequest { account }
    }
}

/// A request for batches and their transactions: the history from the batch that holds
/// `start`, then what follows as it comes, up to the batch that reaches the length.
#[derive(Clone, Copy, Debug, PartialEq, Eq, Hash)]
pub struct BatchInfoRequest {
    /// The sequence number at which to start, or `None` for the latest.
    pub start: Option<TxSequenceNumber>,
    /// The number of items to receive. A bit more or a bit less may come.
    pub length: u64,
}

/// An item of the answer to a request for batches.
#[derive(Clone, Copy, Debug, PartialEq, Eq)]
pub struct BatchInfoResponseItem(pub UpdateItem);

/// A subscription to new checkpoint certificates. Checkpoint numbers are contiguous, so
/// no start is needed: the highest available checkpoint is sent at once.
#[derive(Clone, Debug)]
pub struct CheckpointStreamRequest {
    // No field is needed, but a request may not be of size zero.
    _ignored: u64,
}

impl Default for CheckpointStreamRequest {
    fn default() -> (r: Self)
        ensures
            r == CheckpointStreamRequest::the_request(),
    {
        CheckpointStreamRequest { _ignored: 0 }
    }
}

impl CheckpointStreamRequest {
    /// The one request there is.
    pub closed spec fn the_request() -> Self {
        CheckpointStreamRequest { _ignored: 0 }
    }

    /// A subscription.
    pub fn new() -> (r: Self)
        ensures
            r == Self::the_request(),
    {
        Default::default()
    }
}

/// An item of the stream of checkpoints.
#[derive(Debug)]
pub struct CheckpointStreamResponseItem {
    /// The first checkpoint that this validator can hand out.
    pub first_available_sequence: CheckpointSequenceNumber,
    pub checkpoint: AuthenticatedCheckpoint,
}

/// What a request about an object asks for.
#[derive(Clone, Copy, Debug, PartialEq, Eq, Hash)]
pub enum ObjectInfoRequestKind {
    /// The latest state of the object, with its layout where a format is given.
    LatestObjectInfo(Option<ObjectFormatOptions>),
    /// The state of the object at a version.
    PastObjectInfo(SequenceNumber),
    /// As `PastObjectInfo`, with the contents of the object. For debugging only.
    PastObjectInfoDebug(SequenceNumber, Option<ObjectFormatOptions>),
}

/// A request about an object and, optionally, the certificate that made a version of
/// it.
#[derive(Clone, Copy, Debug, PartialEq, Eq, Hash)]
pub struct ObjectInfoRequest {
    /// The identifier of the object.
    pub object_id: ObjectID,
    /// What is asked for.
    pub request_kind: ObjectInfoRequestKind,
}

impl ObjectInfoRequest {
    /// The request for the object `object_id` at `version`.
    pub fn past_object_info_request(object_id: ObjectID, version: SequenceNumber) -> (r: Self)
        ensures
            r == (ObjectInfoRequest {
                object_id,
                request_kind: ObjectInfoRequestKind::PastObjectInfo(version),
            }),
    {
        ObjectInfoRequest { object_id,
            request_kind: ObjectInfoRequestKind::PastObjectInfo(version) }
    }

    /// The request for the latest state of the object `object_id`.
    pub fn latest_object_info_request(
        object_id: ObjectID,
        layout: Option<ObjectFormatOptions>,
    ) -> (r: Self)
        ensures
            r == (ObjectInfoRequest {
                object_id,
                request_kind: ObjectInfoRequestKind::LatestObjectInfo(layout),
            }),
    {
        ObjectInfoRequest { object_id,
            request_kind: ObjectInfoRequestKind::LatestObjectInfo(layout) }
    }
}

/// What an account owns.
#[derive(Debug, PartialEq, Eq)]
pub struct AccountInfoResponse {
    pub object_ids: Vec<ObjectRef>,
    pub owner: SuiAddress,
}

/// An object as an authority holds it.
#[derive(Debug)]
pub struct ObjectResponse {
    /// The object.
    pub object: Object,
    /// The transaction that the object is locked on, if any.
    pub lock: Option<SignedTransaction>,
    /// The layout of the Move value inside the object. `None` for a package, and where
    /// the request did not ask for it.
    pub layout: Option<MoveStructLayout>,
}

/// The answer to a request about an object.
#[derive(Debug)]
pub struct ObjectInfoResponse {
    /// The certificate that created or mutated the object at the version asked for,
    /// or the latest one that concerns it.
    pub parent_certificate: Option<CertifiedTransaction>,
    /// The reference that that certificate made.
    pub requested_object_reference: Option<ObjectRef>,
    /// The object and its lock, where the latest state was asked for and the object
    /// exists.
    pub object_and_lock: Option<ObjectResponse>,
}

impl ObjectInfoResponse {
    /// The object, where the answer holds one.
    pub fn object(&self) -> (r: Option<&Object>)
        ensures
            r == match self.object_and_lock {
                Some(response) => Some(&response.object),
                None => None,
            },
    {
        match &self.object_and_lock {
            Some(response) => Some(&response.object),
            None => None,
        }
    }
}

/// A request about a transaction.
#[derive(Clone, Copy, Debug, PartialEq, Eq, Hash)]
pub struct TransactionInfoRequest {
    pub transaction_digest: TransactionDigest,
}

impl From<TransactionDigest> for TransactionInfoRequest {
    fn from(transaction_digest: TransactionDigest) -> (r: Self) {
        TransactionInfoRequest { transaction_digest }
    }
}

impl FromSpecImpl<TransactionDigest> for TransactionInfoRequest {
    open spec fn obeys_from_spec() -> bool {
        true
    }

    open spec fn from_spec(transaction_digest: TransactionDigest) -> Self {
        TransactionInfoRequest { transaction_digest }
    }
}

/// The answer to a request about a transaction.
#[derive(Debug)]
pub struct TransactionInfoResponse {
    /// The transaction as the authority signed it.
    pub signed_transaction: Option<SignedTransaction>,
    /// The certificate, in case one is available.
    pub certified_transaction: Option<CertifiedTransaction>,
    /// The signed effects of the execution.
    pub signed_effects: Option<SignedTransactionEffects>,
}

/// What a call of a Move function returned.
#[derive(Debug, PartialEq, Eq)]
pub enum CallResult {
    Bool(bool),
    U8(u8),
    U64(u64),
    U128(u128),
    Address(AccountAddress),
    BoolVec(Vec<bool>),
    U8Vec(Vec<u8>),
    U64Vec(Vec<u64>),
    U128Vec(Vec<u128>),
    AddrVec(Vec<AccountAddress>),
    BoolVecVec(Vec<bool>),
    U8VecVec(Vec<Vec<u8>>),
    U64VecVec(Vec<Vec<u64>>),
    U128VecVec(Vec<Vec<u128>>),
    AddrVecVec(Vec<Vec<AccountAddress>>),
}

/// How long the sender of a transaction waits for it.
#[derive(Clone, Copy, Debug, PartialEq, Eq, Hash, Structural)]
pub enum ExecuteTransactionRequestType {
    ImmediateReturn,
    WaitForTxCert,
    WaitForEffectsCert,
    WaitForLocalExecution,
}

/// A request to execute a transaction.
#[derive(Debug)]
pub struct ExecuteTransactionRequest {
    pub transaction: Transaction,
    pub request_type: ExecuteTransactionRequestType,
}

/// The answer to a request to execute a transaction.
#[derive(Debug)]
pub enum ExecuteTransactionResponse {
    ImmediateReturn,
    TxCert(Box<CertifiedTransaction>),
    EffectsCert(
        Box<(CertifiedTransaction, CertifiedTransactionEffects, IsTransactionExecutedLocally)>,
    ),
}

/// How long the quorum driver works on a transaction before it answers.
#[derive(Clone, Copy, Debug, PartialEq, Eq, Hash, Structural)]
pub enum QuorumDriverRequestType {
    ImmediateReturn,
    WaitForTxCert,
    WaitForEffectsCert,
}

/// A request to the quorum driver.
#[derive(Debug)]
pub struct QuorumDriverRequest {
    pub transaction: Transaction,
    pub request_type: QuorumDriverRequestType,
}

/// The answer of the quorum driver.
#[derive(Debug)]
pub enum QuorumDriverResponse {
    ImmediateReturn,
    TxCert(Box<CertifiedTransaction>),
    EffectsCert(Box<(CertifiedTransaction, CertifiedTransactionEffects)>),
}

/// A request for the committee of an epoch, or of the current one.
#[derive(Clone, Copy, Debug, PartialEq, Eq, Hash, Structural)]
pub struct CommitteeInfoRequest {
    pub epoch: Option<EpochId>,
}

/// The committee of an epoch, where the authority knows it.
#[derive(Debug, PartialEq, Eq)]
pub struct CommitteeInfoResponse {
    pub epoch: EpochId,
    pub committee_info: Option<Vec<(AuthorityName, StakeUnit)>>,
}

/// The committee of an epoch.
#[derive(Debug, PartialEq, Eq)]
pub struct CommitteeInfo {
    pub epoch: EpochId,
    pub committee_info: Vec<(AuthorityName, StakeUnit)>,
}

/// The encodings of authorities with their stake, one after the other.
pub open spec fn concat_voting_rights(s: Seq<(AuthorityName, StakeUnit)>) -> Seq<u8>
    decreases s.len(),
{
    if s.len() == 0 {
        Seq::empty()
    } else {
        concat_voting_rights(s.drop_last()) + s.last().0.0@ + u64_le(s.last().1)
    }
}

/// The encoding of an answer about a committee.
pub open spec fn enc_committee_info_response(r: CommitteeInfoResponse) -> Seq<u8> {
    u64_le(r.epoch) + match r.committee_info {
        None => seq![0u8],
        Some(v) => seq![1u8] + uleb128(v@.len()) + concat_voting_rights(v@),
    }
}

impl CommitteeInfoResponse {
    /// The canonical encoding of the answer.
    pub fn to_bytes(&self) -> (r: Vec<u8>)
        ensures
            r@ == enc_committee_info_response(*self),
    {
        let mut out: Vec<u8> = Vec::new();
        write_u64(&mut out, self.epoch);
        match &self.committee_info {
            None => {
                out.push(0);
            },
            Some(v) => {
                out.push(1);
                write_uleb128(&mut out, v.len());
                let ghost head = out@;
                let mut i: usize = 0;
                while i < v.len()
                    invariant
                        i <= v.len(),
                        out@ == head + concat_voting_rights(v@.take(i as int)),
                    decreases v.len() - i,
                {
                    assert(v@.take(i as int + 1).drop_last() =~= v@.take(i as int));
                    write_raw(&mut out, v[i].0.as_bytes());
                    write_u64(&mut out, v[i].1);
                    assert(out@ =~= head + concat_voting_rights(v@.take(i as int + 1)));
                    i += 1;
                }
                assert(v@.take(v.len() as int) =~= v@);
            },
        }
        assert(out@ =~= enc_committee_info_response(*self));
        out
    }

    /// The digest of the answer: that of its encoding.
    pub fn digest(&self) -> (r: CommitteeInfoResponseDigest)
        ensures
            r == sha3_256(enc_committee_info_response(*self)),
    {
        let bytes = self.to_bytes();
        sha3_hash_bytes(bytes.as_slice())
    }
}

} // verus!
