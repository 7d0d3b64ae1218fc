//! What an authority, or a quorum of them, adds to a message that it signs, and the
//! obligations that verify such signatures in one batch.

use crate::base_types::AuthorityName;
use crate::committee::Committee;
use crate::crypto::{
    bls_aggregate, bls_aggregate_valid, bls_aggregated, bls_fast_aggregate_verify, key_bytes,
    signature_bytes, AuthoritySignature, AUTHORITY_DST,
};
use crate::error::{SuiError, SuiResult};
use crate::transaction::EpochId;
use roaring::RoaringBitmap;
use vstd::prelude::*;

verus! {

#[verifier::external_type_specification]
#[verifier::external_body]
pub struct ExRoaringBitmap(roaring::RoaringBitmap);

/// The numbers that a bitmap holds.
pub uninterp spec fn bitmap_members(b: roaring::RoaringBitmap) -> Set<u32>;

/// `RoaringBitmap::new` makes a bitmap that holds no number.
pub assume_specification[ roaring::RoaringBitmap::new ]() -> (r: roaring::RoaringBitmap)
    ensures
        bitmap_members(r) == Set::<u32>::empty(),
;

/// `RoaringBitmap::insert` adds `value` to the numbers of the bitmap and says whether
/// it was absent before.
pub assume_specification[ roaring::RoaringBitmap::insert ](
    b: &mut roaring::RoaringBitmap,
    value: u32,
) -> (r: bool)
    ensures
        bitmap_members(*final(b)) == bitmap_members(*old(b)).insert(value),
        r == !bitmap_members(*old(b)).contains(value),
;

/// `RoaringBitmap::contains` says whether the bitmap holds `value`.
pub assume_specification[ roaring::RoaringBitmap::contains ](
    b: &roaring::RoaringBitmap,
    value: u32,
) -> (r: bool)
    ensures
        r == bitmap_members(*b).contains(value),
;

/// `RoaringBitmap::max` gives the greatest number of the bitmap, and `None` where it
/// holds none.
pub assume_specification[ roaring::RoaringBitmap::max ](b: &roaring::RoaringBitmap) -> (r: Option<
    u32,
>)
    ensures
        match r {
            Some(m) => bitmap_members(*b).contains(m) && forall|x: u32|
                bitmap_members(*b).contains(x) ==> x <= m,
            None => bitmap_members(*b) == Set::<u32>::empty(),
        },
;

/// `RoaringBitmap::clone` makes a bitmap that holds the same numbers.
#[verifier::external_body]
pub(crate) fn bitmap_clone(b: &RoaringBitmap) -> (r: RoaringBitmap)
    ensures
        bitmap_members(r) == bitmap_members(*b),
{
    b.clone()
}

/// Whether the two bitmaps hold the same numbers.
pub fn same_members(a: &RoaringBitmap, b: &RoaringBitmap) -> (r: bool)
    ensures
        r == (bitmap_members(*a) == bitmap_members(*b)),
{
    match (a.max(), b.max()) {
        (None, None) => true,
        (Some(m), Some(n)) => {
            if m != n {
                return false;
            }
            let mut i: u32 = 0;
            while i < m
                invariant
                    i <= m,
                    forall|x: u32|
                        x < i ==>
                            (bitmap_members(*a).contains(x) == bitmap_members(*b).contains(x)),
                decreases m - i,
            {
                if a.contains(i) != b.contains(i) {
                    return false;
                }
                i += 1;
            }
            assert(bitmap_members(*a) =~= bitmap_members(*b)) by {
                assert forall|x: u32| bitmap_members(*a).contains(x) == bitmap_members(
                    *b,
                ).contains(x) by {
                    if x >= m {
                        if bitmap_members(*a).contains(x) {
                            assert(x <= m);
                        }
                        if bitmap_members(*b).contains(x) {
                            assert(x <= m);
                        }
                    }
                }
            }
            true
        },
        (Some(m), None) => {
            assert(bitmap_members(*a).contains(m));
            false
        },
        (None, Some(n)) => {
            assert(bitmap_members(*b).contains(n));
            false
        },
    }
}

/// One message with the signatures claimed for it and the keys they are claimed under.
#[derive(Debug)]
pub struct ObligationEntry {
    pub message: Vec<u8>,
    pub signatures: Vec<AuthoritySignature>,
    pub public_keys: Vec<AuthorityName>,
}

/// Whether the signatures of an entry, added up, are a signature of its message under
/// the sum of its keys.
pub open spec fn entry_valid(
    message: Seq<u8>,
    signatures: Seq<AuthoritySignature>,
    public_keys: Seq<AuthorityName>,
) -> bool {
    match bls_aggregated(signature_bytes(signatures)) {
        Some(sum) => bls_aggregate_valid(message, AUTHORITY_DST@, sum@, key_bytes(public_keys)),
        None => false,
    }
}

/// Messages, signatures and keys gathered from several sources, to be verified
/// together.
#[derive(Debug)]
pub struct VerificationObligation {
    pub entries: Vec<ObligationEntry>,
}

impl VerificationObligation {
    /// Whether the entry at `i` verifies.
    pub open spec fn valid_at(&self, i: int) -> bool {
        entry_valid(
            self.entries@[i].message@,
            self.entries@[i].signatures@,
            self.entries@[i].public_keys@,
        )
    }

    /// Whether every entry verifies.
    pub open spec fn all_valid(&self) -> bool {
        forall|i: int| 0 <= i < self.entries@.len() ==> self.valid_at(i)
    }

    /// An obligation without entries.
    pub fn new() -> (r: VerificationObligation)
        ensures
            r.entries@.len() == 0,
    {
        VerificationObligation { entries: Vec::new() }
    }

    /// Adds an entry for `message`, so far without signatures and keys, and returns its
    /// position.
    pub fn add_message(&mut self, message: Vec<u8>) -> (idx: usize)
        ensures
            idx == old(self).entries@.len(),
            final(self).entries@.len() == idx + 1,
            final(self).entries@.subrange(0, idx as int) == old(self).entries@,
            final(self).entries@[idx as int].message == message,
            final(self).entries@[idx as int].signatures@.len() == 0,
            final(self).entries@[idx as int].public_keys@.len() == 0,
    {
        let idx = self.entries.len();
        self.entries.push(
            ObligationEntry { message, signatures: Vec::new(), public_keys: Vec::new() },
        );
        assert(self.entries@.subrange(0, idx as int) =~= old(self).entries@);
        idx
    }

    /// Whether `self` is `before` with `signature` and `public_keys` added to the entry
    /// at `idx`.
    pub open spec fn extends(
        &self,
        before: &VerificationObligation,
        idx: int,
        signature: AuthoritySignature,
        public_keys: Seq<AuthorityName>,
    ) -> bool {
        &&& 0 <= idx < before.entries@.len()
        &&& self.entries@.len() == before.entries@.len()
        &&& forall|i: int|
            0 <= i < before.entries@.len() && i != idx ==> self.entries@[i] == before.entries@[i]
        &&& self.entries@[idx].message == before.entries@[idx].message
        &&& self.entries@[idx].signatures@ == before.entries@[idx].signatures@.push(signature)
        &&& self.entries@[idx].public_keys@ == before.entries@[idx].public_keys@ + public_keys
    }

    /// Adds a signature and the keys it is claimed under to the entry at `idx`. Returns
    /// whether there is such an entry; without one, nothing changes.
    pub fn add_signature_and_keys(
        &mut self,
        idx: usize,
        signature: AuthoritySignature,
        public_keys: Vec<AuthorityName>,
    ) -> (r: bool)
        ensures
            r == (idx < old(self).entries@.len()),
            !r ==> *final(self) == *old(self),
            r ==> final(self).extends(old(self), idx as int, signature, public_keys@),
    {
        if idx >= self.entries.len() {
            return false;
        }
        let mut entry = self.entries.remove(idx);
        entry.signatures.push(signature);
        let ghost keys0 = entry.public_keys@;
        let ghost message0 = entry.message;
        let ghost signatures0 = entry.signatures@;
        let mut i: usize = 0;
        while i < public_keys.len()
            invariant
                i <= public_keys.len(),
                entry.message == message0,
                entry.signatures@ == signatures0,
                entry.public_keys@ == keys0 + public_keys@.take(i as int),
            decreases public_keys.len() - i,
        {
            entry.public_keys.push(public_keys[i]);
            assert(entry.public_keys@ =~= keys0 + public_keys@.take(i as int + 1));
            i += 1;
        }
        assert(public_keys@.take(public_keys.len() as int) =~= public_keys@);
        self.entries.insert(idx, entry);
        true
    }

    /// Adds a signature and the key it is claimed under to the entry at `idx`. Returns
    /// whether there is such an entry; without one, nothing changes.
    pub fn add_signature(
        &mut self,
        idx: usize,
        public_key: AuthorityName,
        signature: AuthoritySignature,
    ) -> (r: bool)
        ensures
            r == (idx < old(self).entries@.len()),
            !r ==> *final(self) == *old(self),
            r ==> final(self).extends(old(self), idx as int, signature, seq![public_key]),
    {
        let keys = vec![public_key];
        assert(keys@ =~= seq![public_key]);
        self.add_signature_and_keys(idx, signature, keys)
    }

    /// The position of the first entry that does not verify, where there is one.
    pub fn first_invalid(&self) -> (r: Option<usize>)
        ensures
            match r {
                Some(i) => i < self.entries@.len() && !self.valid_at(i as int) && forall|j: int|
                    0 <= j < i ==> self.valid_at(j),
                None => self.all_valid(),
            },
    {
        let mut i: usize = 0;
        while i < self.entries.len()
            invariant
                i <= self.entries.len(),
                forall|j: int| 0 <= j < i ==> self.valid_at(j),
            decreases self.entries.len() - i,
        {
            let entry = &self.entries[i];
            let valid = match bls_aggregate(&entry.signatures) {
                Some(sum) => bls_fast_aggregate_verify(
                    entry.message.as_slice(),
                    AUTHORITY_DST,
                    sum.as_slice(),
                    &entry.public_keys,
                ),
                None => false,
            };
            if !valid {
                return Some(i);
            }
            i += 1;
        }
        None
    }

    /// Verifies every entry. It succeeds where all verify; where one does not, it fails
    /// as a whole, and the error comes with the position of the first entry that does
    /// not verify.
    pub fn verify_all_naming_first(self) -> (r: Result<(), (usize, SuiError)>)
        ensures
            match r {
                Ok(_) => self.all_valid(),
                Err((i, e)) => e == SuiError::InvalidSignature && i < self.entries@.len()
                    && !self.valid_at(i as int) && forall|j: int| 0 <= j < i ==> self.valid_at(j),
            },
    {
        match self.first_invalid() {
            Some(i) => Err((i, SuiError::InvalidSignature)),
            None => Ok(()),
        }
    }

    /// Verifies every entry. It succeeds where all verify, and fails as a whole where
    /// one does not.
    pub fn verify_all(self) -> (r: SuiResult)
        ensures
            r.is_ok() == self.all_valid(),
            r matches Err(e) ==> e == SuiError::InvalidSignature,
    {
        match self.verify_all_naming_first() {
            Ok(_) => Ok(()),
            Err((_, e)) => Err(e),
        }
    }
}

/// What a message carries that no authority has signed.
#[derive(Clone, Copy, Debug, PartialEq, Eq, Hash, Structural)]
pub struct EmptySignInfo {}

/// What one authority adds to a message that it signs.
#[derive(Clone, Copy, Debug, PartialEq, Eq, Hash)]
pub struct AuthoritySignInfo {
    pub epoch: EpochId,
    pub authority: AuthorityName,
    pub signature: AuthoritySignature,
}

/// What stands against the signature of one authority under `committee`: another
/// epoch, or an authority without stake.
pub open spec fn authority_info_check(info: AuthoritySignInfo, committee: &Committee) -> SuiResult {
    if info.epoch != committee.spec_epoch() {
        Err(SuiError::WrongEpoch)
    } else if committee.spec_weight(info.authority) == 0 {
        Err(SuiError::UnknownSigner)
    } else {
        Ok(())
    }
}

/// Whether `info` holds the signature of an authority of `committee` on `message`.
pub open spec fn authority_info_valid(
    info: AuthoritySignInfo,
    message: Seq<u8>,
    committee: &Committee,
) -> bool {
    authority_info_check(info, committee).is_ok() && entry_valid(
        message,
        seq![info.signature],
        seq![info.authority],
    )
}

impl AuthoritySignInfo {
    /// Checks the epoch and the stake of the authority, then adds its signature and key
    /// to the entry at `message_index`. Where it fails, the obligation is unchanged.
    pub fn add_to_verification_obligation(
        &self,
        committee: &Committee,
        obligation: &mut VerificationObligation,
        message_index: usize,
    ) -> (r: SuiResult)
        ensures
            match authority_info_check(*self, committee) {
                Err(e) => r == Err::<(), SuiError>(e),
                Ok(_) => if message_index < old(obligation).entries@.len() {
                    r.is_ok()
                } else {
                    r == Err::<(), SuiError>(SuiError::InvalidAuthenticator)
                },
            },
            r.is_err() ==> *final(obligation) == *old(obligation),
            r.is_ok() ==> final(obligation).extends(
                old(obligation),
                message_index as int,
                self.signature,
                seq![self.authority],
            ),
    {
        if self.epoch != committee.epoch() {
            return Err(SuiError::WrongEpoch);
        }
        let weight = committee.weight(&self.authority);
        if weight == 0 {
            return Err(SuiError::UnknownSigner);
        }
        if !obligation.add_signature(message_index, self.authority, self.signature) {
            return Err(SuiError::InvalidAuthenticator);
        }
        Ok(())
    }

    /// Checks that `self` holds the signature of an authority of `committee` on
    /// `message`.
    pub fn verify(&self, message: Vec<u8>, committee: &Committee) -> (r: SuiResult)
        ensures
            r.is_ok() == authority_info_valid(*self, message@, committee),
            r matches Err(e) ==> e == (match authority_info_check(*self, committee) {
                Err(e0) => e0,
                Ok(_) => SuiError::InvalidSignature,
            }),
    {
        let mut obligation = VerificationObligation::new();
        let idx = obligation.add_message(message);
        self.add_to_verification_obligation(committee, &mut obligation, idx)?;
        assert(obligation.entries@[0].signatures@ =~= seq![self.signature]);
        assert(obligation.entries@[0].public_keys@ =~= seq![self.authority]);
        assert(obligation.all_valid() == obligation.valid_at(0));
        obligation.verify_all()
    }
}

} // verus!
