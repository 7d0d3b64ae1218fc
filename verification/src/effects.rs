//! The effects of an executed transaction, alone and in the envelope that an authority
//! or a quorum signs.

use crate::base_types::{
    object_ref_eq, AuthorityName, ObjectDigest, ObjectRef, TransactionDigest,
    TransactionEffectsDigest,
};
use crate::codec::{write_raw, Encode};
use crate::committee::Committee;
use crate::crypto::{
    bls_aggregated, sha3_256, sha3_hash_bytes, signature_bytes, AuthoritySignature,
};
use crate::error::{SuiError, SuiResult};
use crate::execution_status::{ExecutionStatus, WriteKind};
use crate::object::Owner;
use crate::quorum::{quorum_check, signatures_of, signers_of, AuthorityStrongQuorumSignInfo};
use crate::sign_info::{
    authority_info_check, authority_info_valid, AuthoritySignInfo, EmptySignInfo,
    VerificationObligation,
};
use crate::transaction::EpochId;
use vstd::prelude::*;

verus! {

/// What the execution of a transaction cost.
#[derive(Clone, Copy, Debug, PartialEq, Eq, Hash, Structural)]
pub struct GasCostSummary {
    pub computation_cost: u64,
    pub storage_cost: u64,
    pub storage_rebate: u64,
}

/// An event that a transaction emitted, in its canonical encoding.
#[derive(Debug, PartialEq, Eq)]
pub struct Event {
    pub contents: Vec<u8>,
}

impl Encode for TransactionDigest {
    open spec fn encoding(&self) -> Seq<u8> {
        self.0@
    }

    fn encode(&self, out: &mut Vec<u8>) {
        assert(self.encoding() == self.0@);
        let bytes = self.as_bytes();
        assert(bytes@ == self.encoding());
        write_raw(out, bytes);
    }
}

/// What the execution of a transaction did to the store.
#[derive(Debug, PartialEq, Eq)]
pub struct TransactionEffects {
    /// The status of the execution.
    pub status: ExecutionStatus,
    pub gas_used: GasCostSummary,
    /// The shared objects used in this transaction. Empty if none were used.
    pub shared_objects: Vec<ObjectRef>,
    /// The digest of the transaction.
    pub transaction_digest: TransactionDigest,
    /// The new objects created, each with its owner.
    pub created: Vec<(ObjectRef, Owner)>,
    /// The objects mutated, the gas object among them, each with its owner.
    pub mutated: Vec<(ObjectRef, Owner)>,
    /// The objects that were inside other objects and were taken out.
    pub unwrapped: Vec<(ObjectRef, Owner)>,
    /// The objects now deleted, by their old references.
    pub deleted: Vec<ObjectRef>,
    /// The objects now wrapped in other objects.
    pub wrapped: Vec<ObjectRef>,
    /// The gas object as it is after the transaction. It is also in `mutated`.
    pub gas_object: (ObjectRef, Owner),
    /// The events emitted during execution. Only successful transactions emit events.
    pub events: Vec<Event>,
    /// The digests of the transactions that this one depends on.
    pub dependencies: Vec<TransactionDigest>,
}

/// The objects that are in the store after the transaction, each with its owner and
/// how it was written: the mutated, then the created, then the unwrapped.
pub open spec fn written_objects(e: TransactionEffects) -> Seq<(ObjectRef, Owner, WriteKind)> {
    Seq::new(e.mutated@.len(), |i: int| (e.mutated@[i].0, e.mutated@[i].1, WriteKind::Mutate))
        + Seq::new(e.created@.len(), |i: int| (e.created@[i].0, e.created@[i].1, WriteKind::Create))
        + Seq::new(e.unwrapped@.len(),
            |i: int| (e.unwrapped@[i].0, e.unwrapped@[i].1, WriteKind::Unwrap))
}

/// Those entries of `s` that are not `gas`, in their order.
pub open spec fn without_gas(s: Seq<(ObjectRef, Owner)>, gas: (ObjectRef, Owner)) -> Seq<
    (ObjectRef, Owner),
>
    decreases s.len(),
{
    if s.len() == 0 {
        Seq::empty()
    } else if s.last() == gas {
        without_gas(s.drop_last(), gas)
    } else {
        without_gas(s.drop_last(), gas).push(s.last())
    }
}

/// Whether `s` holds the version before `r` of the object of `r`.
pub open spec fn holds_previous(s: Seq<ObjectRef>, r: ObjectRef) -> bool {
    exists|i: int| 0 <= i < s.len() && (#[trigger] s[i]).0 == r.0 && s[i].1.0 + 1 == r.1.0
}

/// Whether the transaction made the version `r` of an object: it wrote it, or it
/// deleted or wrapped the version before, and `r` carries the sentinel of that.
pub open spec fn is_mutated_here(e: TransactionEffects, r: ObjectRef) -> bool {
    ||| exists|i: int| 0 <= i < written_objects(e).len()
        && (#[trigger] written_objects(e)[i]).0 == r
    ||| (r.2 == ObjectDigest::spec_deleted() && holds_previous(e.deleted@, r))
    ||| (r.2 == ObjectDigest::spec_wrapped() && holds_previous(e.wrapped@, r))
}

/// The encoding of the effects.
pub open spec fn enc_effects(e: TransactionEffects) -> Seq<u8> {
    e.encoding()
}

/// The digest of the effects: that of their encoding.
pub open spec fn effects_digest(e: TransactionEffects) -> TransactionEffectsDigest {
    TransactionEffectsDigest(sha3_256(enc_effects(e)))
}

/// Whether two references with their owners are the same.
fn owned_ref_eq(a: &(ObjectRef, Owner), b: &(ObjectRef, Owner)) -> (r: bool)
    ensures
        r == (*a == *b),
{
    object_ref_eq(&a.0, &b.0) && a.1.same(&b.1)
}

/// Whether `list` holds the version before `obj_ref` of the object of `obj_ref`.
fn has_previous(list: &Vec<ObjectRef>, obj_ref: &ObjectRef) -> (r: bool)
    ensures
        r == holds_previous(list@, *obj_ref),
{
    let mut i: usize = 0;
    while i < list.len()
        invariant
            i <= list.len(),
            forall|j: int|
                0 <= j < i ==>
                    !((#[trigger] list@[j]).0 == obj_ref.0 && list@[j].1.0 + 1 == obj_ref.1.0),
        decreases list.len() - i,
    {
        if list[i].0 == obj_ref.0 && list[i].1.is_followed_by(&obj_ref.1) {
            return true;
        }
        i += 1;
    }
    false
}

impl TransactionEffects {
    /// The objects that are in the store after the transaction, each with its owner and
    /// how it was written: the mutated, the created and the unwrapped, not the deleted
    /// and the wrapped.
    pub fn all_mutated(&self) -> (r: Vec<(ObjectRef, Owner, WriteKind)>)
        ensures
            r@ == written_objects(*self),
    {
        let mut out: Vec<(ObjectRef, Owner, WriteKind)> = Vec::new();
        let ghost m = Seq::new(
            self.mutated@.len(),
            |i: int| (self.mutated@[i].0, self.mutated@[i].1, WriteKind::Mutate),
        );
        let ghost c = Seq::new(
            self.created@.len(),
            |i: int| (self.created@[i].0, self.created@[i].1, WriteKind::Create),
        );
        let ghost u = Seq::new(
            self.unwrapped@.len(),
            |i: int| (self.unwrapped@[i].0, self.unwrapped@[i].1, WriteKind::Unwrap),
        );
        let mut i: usize = 0;
        while i < self.mutated.len()
            invariant
                i <= self.mutated.len(),
                m.len() == self.mutated@.len(),
                forall|j: int|
                    0 <= j < m.len() ==> m[j] == (
                        self.mutated@[j].0,
                        self.mutated@[j].1,
                        WriteKind::Mutate,
                    ),
                out@ == m.take(i as int),
            decreases self.mutated.len() - i,
        {
            out.push((self.mutated[i].0, self.mutated[i].1, WriteKind::Mutate));
            assert(out@ =~= m.take(i as int + 1));
            i += 1;
        }
        assert(m.take(m.len() as int) =~= m);
        let mut i: usize = 0;
        while i < self.created.len()
            invariant
                i <= self.created.len(),
                c.len() == self.created@.len(),
                forall|j: int|
                    0 <= j < c.len() ==> c[j] == (
                        self.created@[j].0,
                        self.created@[j].1,
                        WriteKind::Create,
                    ),
                out@ == m + c.take(i as int),
            decreases self.created.len() - i,
        {
            out.push((self.created[i].0, self.created[i].1, WriteKind::Create));
            assert(out@ =~= m + c.take(i as int + 1));
            i += 1;
        }
        assert(c.take(c.len() as int) =~= c);
        let mut i: usize = 0;
        while i < self.unwrapped.len()
            invariant
                i <= self.unwrapped.len(),
                u.len() == self.unwrapped@.len(),
                forall|j: int|
                    0 <= j < u.len() ==> u[j] == (
                        self.unwrapped@[j].0,
                        self.unwrapped@[j].1,
                        WriteKind::Unwrap,
                    ),
                out@ == m + c + u.take(i as int),
            decreases self.unwrapped.len() - i,
        {
            out.push((self.unwrapped[i].0, self.unwrapped[i].1, WriteKind::Unwrap));
            assert(out@ =~= m + c + u.take(i as int + 1));
            i += 1;
        }
        assert(u.take(u.len() as int) =~= u);
        out
    }

    /// The mutated objects, without the gas object.
    pub fn mutated_excluding_gas(&self) -> (r: Vec<(ObjectRef, Owner)>)
        ensures
            r@ == without_gas(self.mutated@, self.gas_object),
    {
        let mut out: Vec<(ObjectRef, Owner)> = Vec::new();
        let mut i: usize = 0;
        while i < self.mutated.len()
            invariant
                i <= self.mutated.len(),
                out@ == without_gas(self.mutated@.take(i as int), self.gas_object),
            decreases self.mutated.len() - i,
        {
            assert(self.mutated@.take(i as int + 1).drop_last() =~= self.mutated@.take(i as int));
            if !owned_ref_eq(&self.mutated[i], &self.gas_object) {
                out.push(self.mutated[i]);
            }
            i += 1;
        }
        assert(self.mutated@.take(self.mutated@.len() as int) =~= self.mutated@);
        out
    }

    /// What the execution cost.
    pub fn gas_cost_summary(&self) -> (r: &GasCostSummary)
        ensures
            *r == self.gas_used,
    {
        &self.gas_used
    }

    /// Whether the transaction made the version `obj_ref` of an object.
    pub fn is_object_mutated_here(&self, obj_ref: ObjectRef) -> (r: bool)
        ensures
            r == is_mutated_here(*self, obj_ref),
    {
        // The mutated, created or unwrapped case.
        let written = self.all_mutated();
        let mut i: usize = 0;
        while i < written.len()
            invariant
                i <= written.len(),
                written@ == written_objects(*self),
                forall|j: int| 0 <= j < i ==> (#[trigger] written@[j]).0 != obj_ref,
            decreases written.len() - i,
        {
            if object_ref_eq(&written[i].0, &obj_ref) {
                return true;
            }
            i += 1;
        }
        // The deleted case.
        if obj_ref.2 == ObjectDigest::deleted() && has_previous(&self.deleted, &obj_ref) {
            return true;
        }
        // The wrapped case.
        if obj_ref.2 == ObjectDigest::wrapped() && has_previous(&self.wrapped, &obj_ref) {
            return true;
        }
        false
    }

    /// The digest of the effects.
    pub fn digest(&self) -> (r: TransactionEffectsDigest)
        ensures
            r == effects_digest(*self),
    {
        let mut bytes: Vec<u8> = Vec::new();
        self.encode(&mut bytes);
        TransactionEffectsDigest(sha3_hash_bytes(bytes.as_slice()))
    }

    /// The canonical encoding of the effects: what the authorities sign.
    pub fn to_bytes(&self) -> (r: Vec<u8>)
        ensures
            r@ == enc_effects(*self),
    {
        let mut bytes: Vec<u8> = Vec::new();
        self.encode(&mut bytes);
        bytes
    }

    /// The effects with the signature `signature` that `authority_name` made on them in
    /// `epoch`.
    pub fn to_sign_effects(
        self,
        epoch: EpochId,
        authority_name: &AuthorityName,
        signature: AuthoritySignature,
    ) -> (r: SignedTransactionEffects)
        ensures
            r.effects() == self,
            r.auth() == (AuthoritySignInfo { epoch, authority: *authority_name, signature }),
            r.kept_digest() == Some(effects_digest(self)),
    {
        let digest = self.digest();
        TransactionEffectsEnvelope::assemble(
            Some(digest),
            self,
            AuthoritySignInfo { epoch, authority: *authority_name, signature },
        )
    }
}

/// The effects of a transaction with, depending on `S`, the signature of one authority
/// or of a quorum. The digest, once computed, is kept; it is no part of what is encoded
/// or compared.
#[derive(Debug)]
pub struct TransactionEffectsEnvelope<S> {
    transaction_effects_digest: Option<TransactionEffectsDigest>,
    effects: TransactionEffects,
    auth_signature: S,
}

/// Effects that no authority has signed.
pub type UnsignedTransactionEffects = TransactionEffectsEnvelope<EmptySignInfo>;

/// Effects that one authority has signed.
pub type SignedTransactionEffects = TransactionEffectsEnvelope<AuthoritySignInfo>;

/// Effects that a quorum of authorities has signed.
pub type CertifiedTransactionEffects = TransactionEffectsEnvelope<AuthorityStrongQuorumSignInfo>;

impl<S> TransactionEffectsEnvelope<S> {
    #[verifier::type_invariant]
    closed spec fn inv(&self) -> bool {
        self.transaction_effects_digest matches Some(d) ==> d == effects_digest(self.effects)
    }

    /// The effects in the envelope.
    pub closed spec fn effects(&self) -> TransactionEffects {
        self.effects
    }

    /// What the authorities added to the envelope.
    pub closed spec fn auth(&self) -> S {
        self.auth_signature
    }

    /// The digest that the envelope keeps, where it has computed one.
    pub closed spec fn kept_digest(&self) -> Option<TransactionEffectsDigest> {
        self.transaction_effects_digest
    }

    /// The envelope of `effects` with `auth_signature`, keeping `digest`.
    pub(crate) fn assemble(
        digest: Option<TransactionEffectsDigest>,
        effects: TransactionEffects,
        auth_signature: S,
    ) -> (r: Self)
        requires
            digest matches Some(d) ==> d == effects_digest(effects),
        ensures
            r.effects() == effects,
            r.auth() == auth_signature,
            r.kept_digest() == digest,
    {
        TransactionEffectsEnvelope { transaction_effects_digest: digest, effects, auth_signature }
    }

    /// The effects and what the authorities added, taken apart.
    pub(crate) fn into_parts(self) -> (r: (TransactionEffects, S))
        ensures
            r.0 == self.effects(),
            r.1 == self.auth(),
    {
        (self.effects, self.auth_signature)
    }

    /// The effects.
    pub fn effects_ref(&self) -> (r: &TransactionEffects)
        ensures
            *r == self.effects(),
    {
        &self.effects
    }

    /// What the authorities added.
    pub fn auth_signature(&self) -> (r: &S)
        ensures
            *r == self.auth(),
    {
        &self.auth_signature
    }

    /// The digest of the effects. The first call computes it and keeps it; later calls
    /// hand out what was kept.
    pub fn digest(&mut self) -> (r: TransactionEffectsDigest)
        ensures
            r == effects_digest(old(self).effects()),
            final(self).kept_digest() == Some(r),
            final(self).effects() == old(self).effects(),
            final(self).auth() == old(self).auth(),
    {
        proof {
            use_type_invariant(&*self);
        }
        match self.transaction_effects_digest {
            Some(digest) => digest,
            None => {
                let digest = self.effects.digest();
                self.transaction_effects_digest = Some(digest);
                digest
            },
        }
    }
}

impl TransactionEffectsEnvelope<AuthoritySignInfo> {
    /// Checks that the signature is that of an authority of `committee` on the effects.
    pub fn verify(&self, committee: &Committee) -> (r: SuiResult)
        ensures
            r.is_ok() == authority_info_valid(self.auth(), enc_effects(self.effects()), committee),
            r matches Err(e) ==> e == (match authority_info_check(self.auth(), committee) {
                Err(e0) => e0,
                Ok(_) => SuiError::InvalidSignature,
            }),
    {
        self.auth_signature.verify(self.effects.to_bytes(), committee)
    }
}

impl TransactionEffectsEnvelope<AuthorityStrongQuorumSignInfo> {
    /// The certificate of `effects` that the authorities of `signatures` signed in the
    /// epoch of `committee`.
    pub fn new(
        effects: TransactionEffects,
        signatures: Vec<(AuthorityName, AuthoritySignature)>,
        committee: &Committee,
    ) -> (r: SuiResult<Self>)
        ensures
            match signers_of(committee, signatures@) {
                Err(e) => r matches Err(e1) && e1 == e,
                Ok(set) => match bls_aggregated(signature_bytes(signatures_of(signatures@))) {
                    None => r matches Err(e1) && e1 == SuiError::InvalidSignature,
                    Some(sum) =>
                        r matches Ok(c) && c.effects() == effects
                        && c.kept_digest() == Some(effects_digest(effects))
                        && c.auth().epoch == committee.spec_epoch()
                        && c.auth().signature.0 == sum && c.auth().signers() == set,
                },
            },
    {
        let info = AuthorityStrongQuorumSignInfo::new_with_signatures(signatures, committee)?;
        let digest = effects.digest();
        Ok(TransactionEffectsEnvelope::assemble(Some(digest), effects, info))
    }

    /// Checks that the signature is that of a quorum of `committee` on the effects: the
    /// epoch, the signers and their stake, then the sum of the signatures.
    pub fn verify(&self, committee: &Committee) -> (r: SuiResult)
        ensures
            r.is_ok() == self.auth().is_valid(enc_effects(self.effects()), committee),
            r matches Err(e) ==> e == (match quorum_check(
                self.auth().epoch,
                self.auth().signers(),
                committee,
            ) {
                Err(e0) => e0,
                Ok(_) => SuiError::InvalidSignature,
            }),
    {
        let mut obligation = VerificationObligation::new();
        let idx = obligation.add_message(self.effects.to_bytes());
        self.auth_signature.add_to_verification_obligation(committee, &mut obligation, idx)?;
        assert(obligation.entries@[0].signatures@ =~= seq![
            AuthoritySignature(self.auth().signature.0),
        ]);
        assert(obligation.entries@[0].public_keys@ =~= crate::committee::names_of(
            committee.members(),
            self.auth().signers(),
        ));
        assert(obligation.all_valid() == obligation.valid_at(0));
        obligation.verify_all()
    }

    /// The effects without the quorum's signature. The digest is kept.
    pub fn to_unsigned_effects(self) -> (r: UnsignedTransactionEffects)
        ensures
            r.effects() == self.effects(),
            r.kept_digest() == self.kept_digest(),
    {
        proof {
            use_type_invariant(&self);
        }
        TransactionEffectsEnvelope {
            transaction_effects_digest: self.transaction_effects_digest,
            effects: self.effects,
            auth_signature: EmptySignInfo {  },
        }
    }
}

} // verus!
