//! The envelope that carries a transaction through its three states: signed by its
//! sender alone, signed by one authority, certified by a quorum.

use crate::base_types::{ObjectID, ObjectRef, SuiAddress, TransactionDigest};
use crate::codec::Encode;
use crate::crypto::{sender_signature_valid, sha3_256, sha3_hash_bytes, Signature};
use crate::error::{SuiError, SuiResult};
use crate::move_types::CompiledModule;
use crate::codec::views_of;
use crate::published_modules::{compiled_views, data_with_compiled};
use crate::sign_info::VerificationObligation;
use crate::transaction::{
    dependent_packages, distinct_ids, is_package_list, shared_among, InputObjectKind,
};
use crate::transaction_data::{all_inputs, is_system_kind, TransactionData, TransactionDataView};
use crate::wire::enc_transaction_data;
use vstd::prelude::*;

verus! {

/// What the authorities sign: the data of a transaction and the signature of its
/// sender, which covers exactly that data.
#[derive(Debug, PartialEq, Eq, Hash)]
pub struct SenderSignedData {
    pub data: TransactionData,
    /// The signature of the sender on `data`.
    pub tx_signature: Signature,
}

/// The mathematical form of a `SenderSignedData`.
pub struct SenderSignedDataView {
    pub data: TransactionDataView,
    pub tx_signature: Signature,
}

impl View for SenderSignedData {
    type V = SenderSignedDataView;

    open spec fn view(&self) -> SenderSignedDataView {
        SenderSignedDataView { data: self.data@, tx_signature: self.tx_signature }
    }
}

impl Clone for SenderSignedData {
    fn clone(&self) -> (r: Self)
        ensures
            r@ == self@,
    {
        SenderSignedData { data: self.data.clone(), tx_signature: self.tx_signature }
    }
}

/// The encoding of sender-signed data: the data, then the signature.
pub open spec fn enc_sender_signed_data(d: SenderSignedDataView) -> Seq<u8> {
    enc_transaction_data(d.data) + d.tx_signature.0@
}

/// The digest of a transaction: that of its sender-signed data. It is the same through
/// all the states of the envelope.
pub open spec fn digest_of(d: SenderSignedDataView) -> TransactionDigest {
    TransactionDigest(sha3_256(enc_sender_signed_data(d)))
}

/// Whether the sender's signature of `d` needs no check or passes it: the transaction
/// is the system's own, which no user signed, or the signature is the sender's on the
/// data.
pub open spec fn sender_accepted(d: SenderSignedDataView) -> bool {
    is_system_kind(d.data.kind) || sender_signature_valid(
        enc_transaction_data(d.data),
        d.tx_signature,
        d.data.sender,
    )
}

impl Encode for SenderSignedData {
    open spec fn encoding(&self) -> Seq<u8> {
        enc_sender_signed_data(self@)
    }

    fn encode(&self, out: &mut Vec<u8>) {
        assert(self.encoding() == enc_sender_signed_data(self@));
        let ghost start = out@;
        self.data.encode(out);
        crate::codec::write_raw(out, self.tx_signature.0.as_slice());
        assert(out@ =~= start + enc_sender_signed_data(self@));
    }
}

impl SenderSignedData {
    /// The canonical encoding: what the authorities sign.
    pub fn to_bytes(&self) -> (r: Vec<u8>)
        ensures
            r@ == enc_sender_signed_data(self@),
    {
        let mut writer: Vec<u8> = Vec::new();
        self.encode(&mut writer);
        writer
    }

    /// The digest of the data.
    pub fn digest(&self) -> (r: TransactionDigest)
        ensures
            r == digest_of(self@),
    {
        let bytes = self.to_bytes();
        TransactionDigest::new(sha3_hash_bytes(bytes.as_slice()))
    }
}

/// A transaction signed by its sender and, depending on `S`, by one authority or by a
/// quorum. The digest, once computed, is kept; neither it nor the mark of an earlier
/// verification is part of what is encoded or compared.
#[derive(Debug)]
pub struct TransactionEnvelope<S> {
    transaction_digest: Option<TransactionDigest>,
    is_verified: bool,
    signed_data: SenderSignedData,
    auth_sign_info: S,
}

impl<S> TransactionEnvelope<S> {
    #[verifier::type_invariant]
    closed spec fn inv(&self) -> bool {
        self.transaction_digest matches Some(d) ==> d == digest_of(self.signed_data@)
    }

    /// The sender-signed data of the envelope, as the envelope holds them.
    pub closed spec fn signed(&self) -> SenderSignedData {
        self.signed_data
    }

    /// The sender-signed data of the envelope.
    pub open spec fn data(&self) -> SenderSignedDataView {
        self.signed()@
    }

    /// What the authorities added to the envelope.
    pub closed spec fn auth(&self) -> S {
        self.auth_sign_info
    }

    /// Whether the envelope is marked as verified before.
    pub closed spec fn verified_mark(&self) -> bool {
        self.is_verified
    }

    /// The digest that the envelope keeps, where it has computed one.
    pub closed spec fn kept_digest(&self) -> Option<TransactionDigest> {
        self.transaction_digest
    }

    /// The envelope of `signed_data` with `auth_sign_info`, not marked as verified,
    /// with no digest kept.
    pub fn assemble(signed_data: SenderSignedData, auth_sign_info: S) -> (r: Self)
        ensures
            r.signed() == signed_data,
            r.data() == signed_data@,
            r.auth() == auth_sign_info,
            !r.verified_mark(),
            r.kept_digest().is_none(),
    {
        TransactionEnvelope {
            transaction_digest: None,
            is_verified: false,
            signed_data,
            auth_sign_info,
        }
    }

    /// The envelope of the same data with `auth_sign_info` in place of what the
    /// authorities added before, marked as `verified`. The digest is kept.
    pub(crate) fn rewrap<T>(self, auth_sign_info: T, verified: bool) -> (r: TransactionEnvelope<T>)
        ensures
            r.data() == self.data(),
            r.auth() == auth_sign_info,
            r.verified_mark() == verified,
            r.kept_digest() == self.kept_digest(),
    {
        proof {
            use_type_invariant(&self);
        }
        TransactionEnvelope {
            transaction_digest: self.transaction_digest,
            is_verified: verified,
            signed_data: self.signed_data,
            auth_sign_info,
        }
    }

    /// A copy of the envelope with `auth_sign_info` in place of what the authorities
    /// added.
    pub(crate) fn duplicate_with<T>(&self, auth_sign_info: T) -> (r: TransactionEnvelope<T>)
        ensures
            r.data() == self.data(),
            r.auth() == auth_sign_info,
            r.verified_mark() == self.verified_mark(),
            r.kept_digest() == self.kept_digest(),
    {
        proof {
            use_type_invariant(self);
        }
        TransactionEnvelope {
            transaction_digest: self.transaction_digest,
            is_verified: self.is_verified,
            signed_data: self.signed_data.clone(),
            auth_sign_info,
        }
    }

    /// Takes the envelope apart.
    pub(crate) fn into_parts(self) -> (r: (SenderSignedData, S, bool))
        ensures
            r.0@ == self.data(),
            r.1 == self.auth(),
            r.2 == self.verified_mark(),
    {
        (self.signed_data, self.auth_sign_info, self.is_verified)
    }

    /// The envelope with the lists of `compiled` as what was read of the modules that
    /// its single transactions publish, the first list for the first transaction and
    /// so on. What is encoded and signed, the digest, what the authorities added and
    /// the mark of verification stay as they are.
    pub fn with_compiled(self, compiled: &Vec<Vec<CompiledModule>>) -> (r: Self)
        ensures
            r.data().data == data_with_compiled(self.data().data, compiled_views(compiled@)),
            r.data().tx_signature == self.data().tx_signature,
            enc_sender_signed_data(r.data()) == enc_sender_signed_data(self.data()),
            digest_of(r.data()) == digest_of(self.data()),
            r.auth() == self.auth(),
            r.verified_mark() == self.verified_mark(),
            r.kept_digest() == self.kept_digest(),
    {
        proof {
            use_type_invariant(&self);
        }
        let signed_data = SenderSignedData {
            data: self.signed_data.data.with_compiled(compiled),
            tx_signature: self.signed_data.tx_signature,
        };
        TransactionEnvelope {
            transaction_digest: self.transaction_digest,
            is_verified: self.is_verified,
            signed_data,
            auth_sign_info: self.auth_sign_info,
        }
    }

    /// The sender-signed data.
    pub fn signed_data(&self) -> (r: &SenderSignedData)
        ensures
            *r == self.signed(),
            r@ == self.data(),
    {
        &self.signed_data
    }

    /// What the authorities added.
    pub fn auth_sign_info(&self) -> (r: &S)
        ensures
            *r == self.auth(),
    {
        &self.auth_sign_info
    }

    /// Whether the envelope is marked as verified before.
    pub fn is_verified(&self) -> (r: bool)
        ensures
            r == self.verified_mark(),
    {
        self.is_verified
    }

    /// Sets or clears the mark. Only the owner of the envelope sets it, after it has
    /// verified the envelope: the mark is a local shortcut and proves nothing to others.
    pub fn set_verified(&mut self, verified: bool)
        ensures
            final(self).verified_mark() == verified,
            final(self).data() == old(self).data(),
            final(self).auth() == old(self).auth(),
            final(self).kept_digest() == old(self).kept_digest(),
    {
        proof {
            use_type_invariant(&*self);
        }
        self.is_verified = verified;
    }

    /// Checks the signature of the sender. Succeeds at once where the envelope is
    /// marked as verified or the transaction is the system's own.
    pub fn verify_sender_signature(&self) -> (r: SuiResult)
        ensures
            r.is_ok() == (self.verified_mark() || sender_accepted(self.data())),
            r matches Err(e) ==> e == SuiError::InvalidSignature,
    {
        if self.is_verified || self.signed_data.data.kind.is_system_tx() {
            return Ok(());
        }
        let message = self.signed_data.data.to_bytes();
        self.signed_data.tx_signature.verify_bytes(
            message.as_slice(),
            self.signed_data.data.sender,
        )
    }

    /// Checks the signature of the sender as `verify_sender_signature` does. A sender's
    /// signature is of another scheme than those that an obligation gathers, so it is
    /// verified here and the obligation stays as it is.
    pub fn add_sender_sig_to_verification_obligation(
        &self,
        obligation: &mut VerificationObligation,
        idx: usize,
    ) -> (r: SuiResult)
        ensures
            r.is_ok() == (self.verified_mark() || sender_accepted(self.data())),
            r matches Err(e) ==> e == SuiError::InvalidSignature,
            *final(obligation) == *old(obligation),
    {
        self.verify_sender_signature()
    }

    /// The sender of the transaction.
    pub fn sender_address(&self) -> (r: SuiAddress)
        ensures
            r == self.data().data.sender,
    {
        self.signed_data.data.sender
    }

    /// The object that pays the gas.
    pub fn gas_payment_object_ref(&self) -> (r: &ObjectRef)
        ensures
            *r == self.data().data.gas_payment,
    {
        self.signed_data.data.gas_payment_object_ref()
    }

    /// Whether a shared object is among the inputs of the transaction.
    pub fn contains_shared_object(&self) -> (r: bool)
        ensures
            r == (shared_among(all_inputs(self.data().data)).len() > 0),
    {
        self.shared_input_objects().len() > 0
    }

    /// The shared objects among the inputs of the transaction, in the order of the
    /// inputs.
    pub fn shared_input_objects(&self) -> (r: Vec<ObjectID>)
        ensures
            r@ == shared_among(all_inputs(self.data().data)),
    {
        proof {
            crate::transaction_data::lemma_gas_is_not_shared(self.data().data);
        }
        self.signed_data.data.kind.shared_input_objects()
    }

    /// The inputs of the transaction. Refuses one that names an object twice.
    pub fn input_objects(&self) -> (r: SuiResult<Vec<InputObjectKind>>)
        ensures
            match r {
                Ok(v) => v@ == all_inputs(self.data().data) && distinct_ids(v@),
                Err(e) => e == SuiError::DuplicateObjectRefInput && !distinct_ids(
                    all_inputs(self.data().data),
                ),
            },
    {
        self.signed_data.data.input_objects()
    }

    /// The digest of the transaction. The first call computes it and keeps it; later
    /// calls hand out what was kept.
    pub fn digest(&mut self) -> (r: TransactionDigest)
        ensures
            r == digest_of(old(self).data()),
            final(self).kept_digest() == Some(r),
            final(self).data() == old(self).data(),
            final(self).auth() == old(self).auth(),
            final(self).verified_mark() == old(self).verified_mark(),
    {
        proof {
            use_type_invariant(&*self);
        }
        match self.transaction_digest {
            Some(digest) => digest,
            None => {
                let digest = self.signed_data.digest();
                self.transaction_digest = Some(digest);
                digest
            },
        }
    }

    /// The digest of the transaction, computed without looking at what is kept and
    /// without keeping it.
    pub fn compute_digest(&self) -> (r: TransactionDigest)
        ensures
            r == digest_of(self.data()),
    {
        self.signed_data.digest()
    }

    /// The packages that the compiled modules of a package depend on.
    pub fn input_objects_in_compiled_modules(
        compiled_modules: &Vec<CompiledModule>,
    ) -> (r: Vec<InputObjectKind>)
        ensures
            r@ == dependent_packages(views_of(compiled_modules@)),
            is_package_list(views_of(compiled_modules@), r@),
    {
        crate::transaction::input_objects_in_compiled_modules(compiled_modules)
    }

    /// Whether the transaction is the system's own.
    pub fn is_system_tx(&self) -> (r: bool)
        ensures
            r == is_system_kind(self.data().data.kind),
    {
        self.signed_data.data.kind.is_system_tx()
    }
}

/// The digest of an envelope is the hash of its sender-signed data, whatever the
/// authorities added and whatever was kept: envelopes with the same data have the same
/// digest through all their states.
pub proof fn lemma_digest_follows_data<S, T>(
    a: &mut TransactionEnvelope<S>,
    b: &mut TransactionEnvelope<T>,
    da: TransactionDigest,
    db: TransactionDigest,
)
    requires
        call_ensures(TransactionEnvelope::<S>::digest, (a,), da),
        call_ensures(TransactionEnvelope::<T>::digest, (b,), db),
        old(a).data() == old(b).data(),
    ensures
        da.0 == sha3_256(enc_sender_signed_data(old(a).data())),
        da == db,
{
}

/// The digest does not change from one call to the next: where a second call of
/// `digest` starts from what a first call left, both return the same digest, and the
/// second finds it kept.
pub proof fn lemma_digest_idempotent<S>(
    first: &mut TransactionEnvelope<S>,
    second: &mut TransactionEnvelope<S>,
    d1: TransactionDigest,
    d2: TransactionDigest,
)
    requires
        call_ensures(TransactionEnvelope::<S>::digest, (first,), d1),
        call_ensures(TransactionEnvelope::<S>::digest, (second,), d2),
        *old(second) == *final(first),
    ensures
        d1 == d2,
        old(second).kept_digest() == Some(d1),
        final(second).kept_digest() == Some(d1),
{
}

/// For a transaction of a user whose signature verifies under the public key that it
/// carries, the check of the sender's signature succeeds exactly when that key hashes
/// to the sender's address.
pub proof fn lemma_sender_signature_decides<S>(
    envelope: &TransactionEnvelope<S>,
    verdict: SuiResult,
)
    requires
        call_ensures(TransactionEnvelope::<S>::verify_sender_signature, (envelope,), verdict),
        !envelope.verified_mark(),
        !is_system_kind(envelope.data().data.kind),
        envelope.data().tx_signature.0[0] == 0,
        crate::crypto::ed25519_valid(
            enc_transaction_data(envelope.data().data),
            envelope.data().tx_signature.0@.subrange(1, 65),
            envelope.data().tx_signature.0@.subrange(65, 97),
        ),
    ensures
        verdict.is_ok() == (crate::crypto::address_of_key(
            envelope.data().tx_signature.0@.subrange(65, 97),
        ) == envelope.data().data.sender),
{
}

impl<S: Copy> Clone for TransactionEnvelope<S> {
    fn clone(&self) -> (r: Self)
        ensures
            r.data() == self.data(),
            r.auth() == self.auth(),
            r.verified_mark() == self.verified_mark(),
            r.kept_digest() == self.kept_digest(),
    {
        self.duplicate_with(self.auth_sign_info)
    }
}

} // verus!
