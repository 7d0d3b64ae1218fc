//! The three states of a transaction: signed by its sender, signed by one authority,
//! certified by a quorum.

use crate::base64::{base64_text, Base64};
use crate::base_types::{AuthorityName, ObjectDigest, ObjectID, SequenceNumber, SuiAddress};
use crate::committee::Committee;
use crate::crypto::{AuthoritySignature, Signature, SignatureScheme};
use crate::envelope::{
    enc_sender_signed_data, sender_accepted, SenderSignedData, SenderSignedDataView,
    TransactionEnvelope,
};
use crate::error::{SuiError, SuiResult};
use crate::quorum::{quorum_check, signatures_of, signers_of, AuthorityStrongQuorumSignInfo};
use crate::crypto::{bls_aggregated, signature_bytes};
use crate::sign_info::{
    authority_info_check, authority_info_valid, AuthoritySignInfo, EmptySignInfo,
    VerificationObligation,
};
use crate::transaction::{
    ChangeEpoch, EpochId, SingleTransactionKind, SingleTransactionKindView, TransactionKind,
    TransactionKindView,
};
use crate::transaction_data::{is_system_kind, TransactionData, TransactionDataView};
use crate::wire::enc_transaction_data;
use vstd::prelude::*;

verus! {

/// A transaction that its sender has signed and no authority yet.
pub type Transaction = TransactionEnvelope<EmptySignInfo>;

/// A transaction that its sender and one authority have signed.
pub type SignedTransaction = TransactionEnvelope<AuthoritySignInfo>;

/// A transaction that its sender and a quorum of authorities have signed.
pub type CertifiedTransaction = TransactionEnvelope<AuthorityStrongQuorumSignInfo>;

impl TransactionEnvelope<EmptySignInfo> {
    /// The transaction with the data `data` and the sender's signature `signature`.
    pub fn new(data: TransactionData, signature: Signature) -> (r: Self)
        ensures
            r.data() == (SenderSignedDataView { data: data@, tx_signature: signature }),
            !r.verified_mark(),
            r.kept_digest().is_none(),
    {
        TransactionEnvelope::assemble(
            SenderSignedData { data, tx_signature: signature },
            EmptySignInfo {  },
        )
    }

    /// Checks the signature of the sender.
    pub fn verify(&self) -> (r: Result<(), SuiError>)
        ensures
            r.is_ok() == (self.verified_mark() || sender_accepted(self.data())),
            r matches Err(e) ==> e == SuiError::InvalidSignature,
    {
        self.verify_sender_signature()
    }

    /// The transaction as a client sends it for execution: the data, the scheme of the
    /// signature, the signature and the public key, the bytes as Base64 text.
    pub fn to_network_data_for_execution(&self) -> (r: (Base64, SignatureScheme, Base64, Base64))
        requires
            enc_transaction_data(self.data().data).len() <= usize::MAX / 4,
        ensures
            r.0.0@ == base64_text(enc_transaction_data(self.data().data)),
            r.1 == SignatureScheme::ED25519,
            r.2.0@ == base64_text(self.data().tx_signature.0@.subrange(1, 65)),
            r.3.0@ == base64_text(self.data().tx_signature.0@.subrange(65, 97)),
    {
        let data = self.signed_data().data.to_bytes();
        (
            Base64::from_bytes(data.as_slice()),
            self.signed_data().tx_signature.scheme(),
            Base64::from_bytes(self.signed_data().tx_signature.signature_bytes()),
            Base64::from_bytes(self.signed_data().tx_signature.public_key_bytes()),
        )
    }
}

/// The data of the system's transaction that moves to the epoch `next_epoch`: sent from
/// the zero address, with no gas to speak of, and with the sentinel in place of a
/// sender's signature.
pub open spec fn change_epoch_view(
    next_epoch: EpochId,
    storage_charge: u64,
    computation_charge: u64,
) -> TransactionDataView {
    TransactionDataView {
        kind: TransactionKindView::Single(
            SingleTransactionKindView::ChangeEpoch(
                ChangeEpoch { epoch: next_epoch, storage_charge, computation_charge },
            ),
        ),
        sender: SuiAddress::spec_zero(),
        gas_payment: (ObjectID::spec_zero(), SequenceNumber(0), ObjectDigest::spec_min()),
        gas_price: 1,
        gas_budget: 0,
    }
}

/// What an authority signs to move to the epoch `next_epoch`. The sender and the gas do
/// not matter; the signature is the sentinel, which nobody verifies.
pub fn change_epoch_data(
    next_epoch: EpochId,
    storage_charge: u64,
    computation_charge: u64,
) -> (r: SenderSignedData)
    ensures
        r@.data == change_epoch_view(next_epoch, storage_charge, computation_charge),
        forall|i: int| 0 <= i < 97 ==> r@.tx_signature.0@[i] == 0,
{
    let kind = TransactionKind::Single(
        SingleTransactionKind::ChangeEpoch(
            ChangeEpoch { epoch: next_epoch, storage_charge, computation_charge },
        ),
    );
    let data = TransactionData::new(
        kind,
        SuiAddress::default(),
        (ObjectID::zero(), SequenceNumber::default(), ObjectDigest::min()),
        0,
    );
    SenderSignedData { data, tx_signature: Signature::sentinel() }
}

/// Whether a transaction signed by one authority verifies under `committee`: the
/// sender's signature is accepted, and the authority's signature is that of an
/// authority of the committee on the sender-signed data.
pub open spec fn signed_transaction_valid(
    verified_mark: bool,
    data: SenderSignedDataView,
    info: AuthoritySignInfo,
    committee: &Committee,
) -> bool {
    (verified_mark || sender_accepted(data)) && authority_info_valid(
        info,
        enc_sender_signed_data(data),
        committee,
    )
}

impl TransactionEnvelope<AuthoritySignInfo> {
    /// The transaction `transaction` with the signature `signature` that `authority`
    /// made in `epoch` on its sender-signed data.
    pub fn new(
        epoch: EpochId,
        transaction: Transaction,
        authority: AuthorityName,
        signature: AuthoritySignature,
    ) -> (r: Self)
        ensures
            r.data() == transaction.data(),
            r.auth() == (AuthoritySignInfo { epoch, authority, signature }),
            r.verified_mark() == transaction.verified_mark(),
    {
        let verified = transaction.is_verified();
        transaction.rewrap(AuthoritySignInfo { epoch, authority, signature }, verified)
    }

    /// The system's transaction that moves to the epoch `next_epoch`, with the
    /// signature `signature` that `authority` made on `change_epoch_data` of the same
    /// arguments.
    pub fn new_change_epoch(
        next_epoch: EpochId,
        storage_charge: u64,
        computation_charge: u64,
        authority: AuthorityName,
        signature: AuthoritySignature,
    ) -> (r: Self)
        ensures
            r.data().data == change_epoch_view(next_epoch, storage_charge, computation_charge),
            forall|i: int| 0 <= i < 97 ==> r.data().tx_signature.0@[i] == 0,
            r.auth() == (AuthoritySignInfo { epoch: next_epoch, authority, signature }),
            !r.verified_mark(),
    {
        let signed_data = change_epoch_data(next_epoch, storage_charge, computation_charge);
        TransactionEnvelope::assemble(
            signed_data,
            AuthoritySignInfo { epoch: next_epoch, authority, signature },
        )
    }

    /// Checks the signature of the sender, then that of the authority, which must be of
    /// the committee's epoch and hold stake in it.
    pub fn verify(&self, committee: &Committee) -> (r: SuiResult)
        ensures
            r.is_ok() == signed_transaction_valid(
                self.verified_mark(),
                self.data(),
                self.auth(),
                committee,
            ),
            r matches Err(e) ==> e == (if !(self.verified_mark() || sender_accepted(self.data())) {
                SuiError::InvalidSignature
            } else {
                match authority_info_check(self.auth(), committee) {
                    Err(e0) => e0,
                    Ok(_) => SuiError::InvalidSignature,
                }
            }),
    {
        self.verify_sender_signature()?;
        let message = self.signed_data().to_bytes();
        self.auth_sign_info().verify(message, committee)
    }

    /// The transaction without the authority's signature, as it must be to enter a
    /// certificate.
    pub fn to_transaction(self) -> (r: Transaction)
        ensures
            r.data() == self.data(),
            !r.verified_mark(),
            r.kept_digest().is_none(),
    {
        let (signed_data, _, _) = self.into_parts();
        TransactionEnvelope::assemble(signed_data, EmptySignInfo {  })
    }
}

/// Whether a certificate verifies under `committee`: it is marked as verified, or the
/// sender's signature is accepted and the quorum's signature is that of a quorum of the
/// committee on the sender-signed data.
pub open spec fn certificate_valid(
    verified_mark: bool,
    data: SenderSignedDataView,
    info: AuthorityStrongQuorumSignInfo,
    committee: &Committee,
) -> bool {
    verified_mark || (sender_accepted(data) && info.is_valid(
        enc_sender_signed_data(data),
        committee,
    ))
}

impl TransactionEnvelope<AuthorityStrongQuorumSignInfo> {
    /// The certificate of `transaction` in `epoch` that no authority has signed yet.
    pub fn new(epoch: EpochId, transaction: Transaction) -> (r: CertifiedTransaction)
        ensures
            r.data() == transaction.data(),
            r.auth().epoch == epoch,
            r.auth().signers() == Set::<u32>::empty(),
            !r.verified_mark(),
            r.kept_digest() == transaction.kept_digest(),
    {
        transaction.rewrap(AuthorityStrongQuorumSignInfo::new(epoch), false)
    }

    /// The certificate of `transaction` that the authorities of `signatures` signed in
    /// the epoch of `committee`.
    pub fn new_with_signatures(
        transaction: Transaction,
        signatures: Vec<(AuthorityName, AuthoritySignature)>,
        committee: &Committee,
    ) -> (r: SuiResult<CertifiedTransaction>)
        ensures
            match signers_of(committee, signatures@) {
                Err(e) => r matches Err(e1) && e1 == e,
                Ok(set) => match bls_aggregated(signature_bytes(signatures_of(signatures@))) {
                    None => r matches Err(e1) && e1 == SuiError::InvalidSignature,
                    Some(sum) => r matches Ok(c) && c.data() == transaction.data()
                        && !c.verified_mark() && c.auth().epoch == committee.spec_epoch()
                        && c.auth().signature.0 == sum && c.auth().signers() == set,
                },
            },
    {
        let info = AuthorityStrongQuorumSignInfo::new_with_signatures(signatures, committee)?;
        Ok(transaction.rewrap(info, false))
    }

    /// The transaction without the quorum's signature.
    pub fn to_transaction(self) -> (r: Transaction)
        ensures
            r.data() == self.data(),
            !r.verified_mark(),
            r.kept_digest().is_none(),
    {
        let (signed_data, _, _) = self.into_parts();
        TransactionEnvelope::assemble(signed_data, EmptySignInfo {  })
    }

    /// Verifies the certificate: at once where it is marked as verified; else the
    /// signature of the sender, then the epoch, the signers and their stake, then the
    /// sum of the signatures.
    pub fn verify(&self, committee: &Committee) -> (r: Result<(), SuiError>)
        ensures
            r.is_ok() == certificate_valid(
                self.verified_mark(),
                self.data(),
                self.auth(),
                committee,
            ),
            r matches Err(e) ==> e == (if !sender_accepted(self.data()) {
                SuiError::InvalidSignature
            } else {
                match quorum_check(self.auth().epoch, self.auth().signers(), committee) {
                    Err(e0) => e0,
                    Ok(_) => SuiError::InvalidSignature,
                }
            }),
    {
        if self.is_verified() {
            return Ok(());
        }
        self.verify_sender_signature()?;
        let mut obligation = VerificationObligation::new();
        let idx = obligation.add_message(self.signed_data().to_bytes());
        self.auth_sign_info().add_to_verification_obligation(committee, &mut obligation, idx)?;
        assert(obligation.entries@[0].signatures@ =~= seq![
            AuthoritySignature(self.auth().signature.0),
        ]);
        assert(obligation.entries@[0].public_keys@ =~= crate::committee::names_of(
            committee.members(),
            self.auth().signers(),
        ));
        assert(obligation.all_valid() == obligation.valid_at(0));
        obligation.verify_all()
    }

    /// The epoch of the certificate.
    pub fn epoch(&self) -> (r: EpochId)
        ensures
            r == self.auth().epoch,
    {
        self.auth_sign_info().epoch
    }
}

/// The check of a transaction is idempotent: any two results of `verify` for one
/// transaction succeed together.
pub proof fn lemma_transaction_verify_idempotent(
    transaction: &Transaction,
    first: Result<(), SuiError>,
    second: Result<(), SuiError>,
)
    requires
        call_ensures(TransactionEnvelope::<EmptySignInfo>::verify, (transaction,), first),
        call_ensures(TransactionEnvelope::<EmptySignInfo>::verify, (transaction,), second),
    ensures
        first.is_ok() == second.is_ok(),
{
}

/// The check of a signed transaction is idempotent: any two results of `verify` for
/// one transaction and one committee succeed together.
pub proof fn lemma_signed_verify_idempotent(
    transaction: &SignedTransaction,
    committee: &Committee,
    first: SuiResult,
    second: SuiResult,
)
    requires
        call_ensures(
            TransactionEnvelope::<AuthoritySignInfo>::verify,
            (transaction, committee),
            first,
        ),
        call_ensures(
            TransactionEnvelope::<AuthoritySignInfo>::verify,
            (transaction, committee),
            second,
        ),
    ensures
        first.is_ok() == second.is_ok(),
{
}

/// The check of a certificate is idempotent: any two results of `verify` for one
/// certificate and one committee succeed together.
pub proof fn lemma_certificate_verify_idempotent(
    certificate: &CertifiedTransaction,
    committee: &Committee,
    first: Result<(), SuiError>,
    second: Result<(), SuiError>,
)
    requires
        call_ensures(
            TransactionEnvelope::<AuthorityStrongQuorumSignInfo>::verify,
            (certificate, committee),
            first,
        ),
        call_ensures(
            TransactionEnvelope::<AuthorityStrongQuorumSignInfo>::verify,
            (certificate, committee),
            second,
        ),
    ensures
        first.is_ok() == second.is_ok(),
{
}

/// The system's transaction needs no signature of a sender: whatever stands in the
/// place of one, the check of the sender's signature succeeds, and the transaction
/// verifies exactly when the authority's signature does.
pub proof fn lemma_change_epoch_bypasses_sender(
    transaction: &SignedTransaction,
    committee: &Committee,
    sender_check: SuiResult,
    verdict: SuiResult,
)
    requires
        is_system_kind(transaction.data().data.kind),
        call_ensures(
            TransactionEnvelope::<AuthoritySignInfo>::verify_sender_signature,
            (transaction,),
            sender_check,
        ),
        call_ensures(
            TransactionEnvelope::<AuthoritySignInfo>::verify,
            (transaction, committee),
            verdict,
        ),
    ensures
        sender_check.is_ok(),
        verdict.is_ok() == authority_info_valid(
            transaction.auth(),
            enc_sender_signed_data(transaction.data()),
            committee,
        ),
{
}

impl Clone for TransactionEnvelope<AuthorityStrongQuorumSignInfo> {
    fn clone(&self) -> (r: Self)
        ensures
            r.data() == self.data(),
            r.auth().epoch == self.auth().epoch,
            r.auth().signature == self.auth().signature,
            r.auth().signers() == self.auth().signers(),
            r.verified_mark() == self.verified_mark(),
            r.kept_digest() == self.kept_digest(),
    {
        self.duplicate_with(self.auth_sign_info().clone())
    }
}

} // verus!
