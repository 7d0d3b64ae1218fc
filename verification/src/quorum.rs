//! What a quorum of authorities adds to a message that they sign: the sum of their
//! signatures and the set of their positions in the committee.

use crate::base_types::AuthorityName;
use crate::committee::{
    lemma_stake_of_bound, lemma_stake_sum_prefix, names_of, stake_of, Committee,
};
use crate::crypto::{
    bls_aggregate, bls_aggregated, can_be_added, signature_bytes, AggregateAuthoritySignature,
    AuthoritySignature,
};
use crate::error::{SuiError, SuiResult};
use crate::sign_info::{bitmap_clone, bitmap_members, entry_valid, VerificationObligation};
use crate::transaction::EpochId;
use roaring::RoaringBitmap;
use vstd::prelude::*;

verus! {

/// What a quorum of authorities adds to a message that they sign.
#[derive(Debug)]
pub struct AuthorityStrongQuorumSignInfo {
    pub epoch: EpochId,
    pub signature: AggregateAuthoritySignature,
    pub signers_map: RoaringBitmap,
}

/// The positions in `committee` of the authorities that `signatures` names, or what
/// stands against the first entry that cannot be taken: an authority that is not of
/// the committee, or one that an earlier entry names.
pub open spec fn signers_of(
    committee: &Committee,
    signatures: Seq<(AuthorityName, AuthoritySignature)>,
) -> Result<Set<u32>, SuiError>
    decreases signatures.len(),
{
    if signatures.len() == 0 {
        Ok(Set::empty())
    } else {
        match signers_of(committee, signatures.drop_last()) {
            Err(e) => Err(e),
            Ok(set) => match committee.spec_index(signatures.last().0) {
                None => Err(SuiError::UnknownSigner),
                Some(i) => if set.contains(i as u32) {
                    Err(SuiError::CertificateAuthorityReuse)
                } else {
                    Ok(set.insert(i as u32))
                },
            },
        }
    }
}

/// The signatures of `signatures`, without the names.
pub open spec fn signatures_of(signatures: Seq<(AuthorityName, AuthoritySignature)>) -> Seq<
    AuthoritySignature,
> {
    Seq::new(signatures.len(), |i: int| signatures[i].1)
}

/// What stands against the signers `signers` of a certificate of the epoch `epoch`
/// under `committee`: another epoch, a position at which the committee has no
/// authority or one without stake, or too little stake for a quorum.
pub open spec fn quorum_check(
    epoch: EpochId,
    signers: Set<u32>,
    committee: &Committee,
) -> SuiResult {
    if epoch != committee.spec_epoch() {
        Err(SuiError::WrongEpoch)
    } else if exists|x: u32| #[trigger]
        signers.contains(x)
            && (x >= committee.members().len() || committee.members()[x as int].1 == 0) {
        Err(SuiError::UnknownSigner)
    } else if stake_of(committee.members(), signers) < committee.spec_quorum_threshold() {
        Err(SuiError::CertificateRequiresQuorum)
    } else {
        Ok(())
    }
}

impl AuthorityStrongQuorumSignInfo {
    /// The positions of the signers in the committee.
    pub open spec fn signers(&self) -> Set<u32> {
        bitmap_members(self.signers_map)
    }

    /// Whether `self` holds the signature of a quorum of `committee` on `message`.
    pub open spec fn is_valid(&self, message: Seq<u8>, committee: &Committee) -> bool {
        quorum_check(self.epoch, self.signers(), committee).is_ok() && entry_valid(
            message,
            seq![AuthoritySignature(self.signature.0)],
            names_of(committee.members(), self.signers()),
        )
    }

    /// The information of a certificate of `epoch` that no authority has signed yet.
    pub fn new(epoch: EpochId) -> (r: Self)
        ensures
            r.epoch == epoch,
            r.signers() == Set::<u32>::empty(),
    {
        AuthorityStrongQuorumSignInfo {
            epoch,
            signature: AggregateAuthoritySignature([0u8; 48]),
            signers_map: RoaringBitmap::new(),
        }
    }

    /// The information of a certificate that the authorities of `signatures` signed in
    /// the epoch of `committee`: the sum of their signatures, in the order given, and
    /// their positions in the committee. It refuses an authority that is not of the
    /// committee or that is named twice, and signatures that cannot be added: none at
    /// all, or one that is no point of the group of signatures.
    pub fn new_with_signatures(
        signatures: Vec<(AuthorityName, AuthoritySignature)>,
        committee: &Committee,
    ) -> (r: SuiResult<Self>)
        ensures
            match signers_of(committee, signatures@) {
                Err(e) => r matches Err(e1) && e1 == e,
                Ok(set) => match bls_aggregated(signature_bytes(signatures_of(signatures@))) {
                    None => r matches Err(e1) && e1 == SuiError::InvalidSignature,
                    Some(sum) => r matches Ok(info) && info.epoch == committee.spec_epoch()
                        && info.signature.0 == sum && info.signers() == set,
                },
            },
            signers_of(committee, signatures@) is Ok ==> (bls_aggregated(
                signature_bytes(signatures_of(signatures@)),
            ) is Some) == can_be_added(signatures_of(signatures@)),
    {
        let mut map = RoaringBitmap::new();
        let mut sigs: Vec<AuthoritySignature> = Vec::new();
        let mut i: usize = 0;
        while i < signatures.len()
            invariant
                i <= signatures.len(),
                signers_of(committee, signatures@.take(i as int)) == Ok::<Set<u32>, SuiError>(
                    bitmap_members(map),
                ),
                sigs@ == signatures_of(signatures@.take(i as int)),
            decreases signatures.len() - i,
        {
            assert(signatures@.take(i as int + 1).drop_last() =~= signatures@.take(i as int));
            let (name, sig) = signatures[i];
            let index = match committee.authority_index(&name) {
                Some(index) => index,
                None => {
                    proof {
                        lemma_signers_of_error(committee, signatures@, i as int + 1);
                    }
                    return Err(SuiError::UnknownSigner);
                },
            };
            if !map.insert(index) {
                proof {
                    lemma_signers_of_error(committee, signatures@, i as int + 1);
                }
                return Err(SuiError::CertificateAuthorityReuse);
            }
            sigs.push(sig);
            assert(sigs@ =~= signatures_of(signatures@.take(i as int + 1)));
            i += 1;
        }
        assert(signatures@.take(signatures.len() as int) =~= signatures@);
        match bls_aggregate(&sigs) {
            Some(sum) => Ok(
                AuthorityStrongQuorumSignInfo {
                    epoch: committee.epoch(),
                    signature: AggregateAuthoritySignature(sum),
                    signers_map: map,
                },
            ),
            None => Err(SuiError::InvalidSignature),
        }
    }

    /// Checks the epoch, that every signer is an authority of `committee` with stake,
    /// and that the signers hold a quorum of the stake; then adds the signature and the
    /// signers' keys to the entry at `message_index`. Where it fails, the obligation is
    /// unchanged.
    pub fn add_to_verification_obligation(
        &self,
        committee: &Committee,
        obligation: &mut VerificationObligation,
        message_index: usize,
    ) -> (r: SuiResult)
        ensures
            match quorum_check(self.epoch, self.signers(), committee) {
                Err(e) => r == Err::<(), SuiError>(e),
                Ok(_) => if message_index < old(obligation).entries@.len() {
                    r.is_ok()
                } else {
                    r == Err::<(), SuiError>(SuiError::InvalidAuthenticator)
                },
            },
            r.is_err() ==> *final(obligation) == *old(obligation),
            r.is_ok() ==> final(obligation).extends(
                old(obligation),
                message_index as int,
                AuthoritySignature(self.signature.0),
                names_of(committee.members(), self.signers()),
            ),
    {
        if self.epoch != committee.epoch() {
            return Err(SuiError::WrongEpoch);
        }
        let n = committee.num_members();
        let ghost members = committee.members();
        let ghost signers = self.signers();
        if let Some(greatest) = self.signers_map.max() {
            if greatest as usize >= n {
                return Err(SuiError::UnknownSigner);
            }
        }
        let mut weight: u64 = 0;
        let mut keys: Vec<AuthorityName> = Vec::new();
        let mut i: u32 = 0;
        while (i as usize) < n
            invariant
                i <= n,
                n == members.len(),
                n <= u32::MAX,
                members == committee.members(),
                signers == bitmap_members(self.signers_map),
                committee.is_well_formed(),
                self.epoch == committee.spec_epoch(),
                *obligation == *old(obligation),
                weight == stake_of(members.take(i as int), signers),
                keys@ == names_of(members.take(i as int), signers),
                forall|x: u32| x < i && #[trigger] signers.contains(x) ==> members[x as int].1 > 0,
            decreases n - i,
        {
            assert(members.take(i as int + 1).drop_last() =~= members.take(i as int));
            if self.signers_map.contains(i) {
                let stake = committee.stake_at(i);
                if stake == 0 {
                    assert(signers.contains(i) && members[i as int].1 == 0);
                    return Err(SuiError::UnknownSigner);
                }
                proof {
                    lemma_stake_of_bound(members.take(i as int + 1), signers);
                    lemma_stake_sum_prefix(members, i as int + 1);
                }
                weight = weight + stake;
                let name = committee.authority_by_index(i);
                keys.push(*name.unwrap());
            }
            i += 1;
        }
        assert(members.take(n as int) =~= members);
        assert(!(exists|x: u32| #[trigger]
            signers.contains(x) && (x >= members.len() || members[x as int].1 == 0)));
        if weight < committee.quorum_threshold() {
            return Err(SuiError::CertificateRequiresQuorum);
        }
        if !obligation.add_signature_and_keys(
            message_index,
            AuthoritySignature(self.signature.0),
            keys,
        ) {
            return Err(SuiError::InvalidAuthenticator);
        }
        Ok(())
    }
}

impl Clone for AuthorityStrongQuorumSignInfo {
    fn clone(&self) -> (r: Self)
        ensures
            r.epoch == self.epoch,
            r.signature == self.signature,
            r.signers() == self.signers(),
    {
        AuthorityStrongQuorumSignInfo {
            epoch: self.epoch,
            signature: self.signature,
            signers_map: bitmap_clone(&self.signers_map),
        }
    }
}

/// Once a prefix of `signatures` cannot be taken, the whole cannot, for the same
/// reason.
pub proof fn lemma_signers_of_error(
    committee: &Committee,
    signatures: Seq<(AuthorityName, AuthoritySignature)>,
    n: int,
)
    requires
        0 <= n <= signatures.len(),
        signers_of(committee, signatures.take(n)).is_err(),
    ensures
        signers_of(committee, signatures) == signers_of(committee, signatures.take(n)),
    decreases signatures.len() - n,
{
    if n == signatures.len() {
        assert(signatures.take(n) =~= signatures);
    } else {
        assert(signatures.take(n + 1).drop_last() =~= signatures.take(n));
        lemma_signers_of_error(committee, signatures, n + 1);
    }
}

} // verus!
