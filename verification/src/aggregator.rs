//! The aggregator that combines the signatures of authorities on one transaction into
//! a certificate, once the signers hold a quorum of the stake.

use crate::base_types::AuthorityName;
use crate::certified::{CertifiedTransaction, Transaction};
use crate::committee::{lemma_stake_of_bound, stake_of, Committee, StakeUnit};
use crate::crypto::{
    authority_signature_valid, bls_aggregated, bls_signature_in_group, can_be_added,
    signature_bytes, AuthoritySignature,
};
use crate::envelope::{enc_sender_signed_data, sender_accepted, SenderSignedDataView};
use crate::error::SuiError;
use crate::lex::{
    has_key, insert_sorted, lemma_lex_irreflexive, lower_bound, sorted_by_key, ByteKey,
};
use crate::quorum::{
    quorum_check, signatures_of, signers_of, AuthorityStrongQuorumSignInfo,
};
use crate::transaction::clone_flat;
use vstd::prelude::*;

verus! {

/// The positions in `committee` of the authorities that `stash` names.
pub open spec fn indices_of(
    committee: &Committee,
    stash: Seq<(AuthorityName, AuthoritySignature)>,
) -> Set<u32> {
    Set::new(
        |x: u32|
            exists|j: int|
                0 <= j < stash.len() && committee.spec_index((#[trigger] stash[j]).0) == Some(
                    x as int,
                ),
    )
}

/// Whether `stash` can be the signatures gathered for `message` under `committee`:
/// in the strict order of the authorities' names, each of an authority with stake, each
/// a signature of that authority on the message, and so a point of the group of
/// signatures.
pub open spec fn is_valid_stash(
    committee: &Committee,
    message: Seq<u8>,
    stash: Seq<(AuthorityName, AuthoritySignature)>,
) -> bool {
    &&& sorted_by_key(stash)
    &&& forall|j: int|
        0 <= j < stash.len() ==> committee.spec_weight((#[trigger] stash[j]).0) > 0
            && authority_signature_valid(message, stash[j].1, stash[j].0)
            && bls_signature_in_group(stash[j].1.0@)
}

/// The stake of some authorities depends only on which positions below the number of
/// authorities are among them.
pub proof fn lemma_stake_of_agree(s: Seq<(AuthorityName, StakeUnit)>, a: Set<u32>, b: Set<u32>)
    requires
        s.len() <= u32::MAX,
        forall|x: u32| x < s.len() ==> (a.contains(x) == b.contains(x)),
    ensures
        stake_of(s, a) == stake_of(s, b),
    decreases s.len(),
{
    if s.len() > 0 {
        lemma_stake_of_agree(s.drop_last(), a, b);
    }
}

/// One more authority among the signers adds its stake to theirs.
pub proof fn lemma_stake_of_insert(s: Seq<(AuthorityName, StakeUnit)>, set: Set<u32>, i: u32)
    requires
        s.len() <= u32::MAX,
        i < s.len(),
        !set.contains(i),
    ensures
        stake_of(s, set.insert(i)) == stake_of(s, set) + s[i as int].1,
    decreases s.len(),
{
    if s.len() - 1 == i {
        lemma_stake_of_agree(s.drop_last(), set, set.insert(i));
    } else {
        lemma_stake_of_insert(s.drop_last(), set, i);
    }
}

/// The authority at a position has the name by which the position was found.
pub proof fn lemma_index_names(committee: &Committee, name: AuthorityName)
    requires
        committee.is_well_formed(),
        committee.spec_weight(name) > 0,
    ensures
        committee.spec_index(name) matches Some(i) && 0 <= i < committee.members().len()
            && committee.members()[i].0 == name
            && committee.members()[i].1 == committee.spec_weight(name),
{
    let i = committee.spec_index(name)->0;
    assert(committee.members()[i].0.0 =~= name.0);
}

/// A valid stash names every authority once, so its positions are taken one by one
/// without a refusal.
pub proof fn lemma_signers_of_stash(
    committee: &Committee,
    message: Seq<u8>,
    stash: Seq<(AuthorityName, AuthoritySignature)>,
)
    requires
        committee.is_well_formed(),
        is_valid_stash(committee, message, stash),
    ensures
        signers_of(committee, stash) == Ok::<Set<u32>, SuiError>(indices_of(committee, stash)),
    decreases stash.len(),
{
    if stash.len() == 0 {
        assert(indices_of(committee, stash) =~= Set::<u32>::empty());
    } else {
        let rest = stash.drop_last();
        let last = stash.last();
        assert(sorted_by_key(rest)) by {
            assert forall|i: int, j: int| 0 <= i < j < rest.len() implies crate::lex::lex_lt(
                #[trigger] rest[i].0.key(),
                #[trigger] rest[j].0.key(),
            ) by {
                assert(crate::lex::lex_lt(stash[i].0.key(), stash[j].0.key()));
            }
        }
        assert forall|j: int| 0 <= j < rest.len() implies committee.spec_weight(
            (#[trigger] rest[j]).0,
        ) > 0 && authority_signature_valid(message, rest[j].1, rest[j].0) by {
            assert(committee.spec_weight(stash[j].0) > 0);
        }
        lemma_signers_of_stash(committee, message, rest);
        let set = indices_of(committee, rest);
        assert(committee.spec_weight(stash[stash.len() - 1].0) > 0);
        lemma_index_names(committee, last.0);
        let i = committee.spec_index(last.0)->0;
        if set.contains(i as u32) {
            let j = choose|j: int|
                0 <= j < rest.len() && committee.spec_index((#[trigger] rest[j]).0) == Some(
                    i as u32 as int,
                );
            assert(committee.spec_weight(stash[j].0) > 0);
            lemma_index_names(committee, rest[j].0);
            assert(crate::lex::lex_lt(stash[j].0.key(), stash[stash.len() - 1].0.key()));
            lemma_lex_irreflexive(last.0.key());
        }
        assert(indices_of(committee, stash) =~= set.insert(i as u32)) by {
            assert forall|x: u32| indices_of(committee, stash).contains(x) == set.insert(
                i as u32,
            ).contains(x) by {
                if indices_of(committee, stash).contains(x) {
                    let j = choose|j: int|
                        0 <= j < stash.len()
                            && committee.spec_index((#[trigger] stash[j]).0) == Some(x as int);
                    if j < rest.len() {
                        assert(committee.spec_index(rest[j].0) == Some(x as int));
                    }
                }
                if set.contains(x) {
                    let j = choose|j: int|
                        0 <= j < rest.len()
                            && committee.spec_index((#[trigger] rest[j]).0) == Some(x as int);
                    assert(committee.spec_index(stash[j].0) == Some(x as int));
                }
                if x == i as u32 {
                    assert(committee.spec_index(stash[stash.len() - 1].0) == Some(x as int));
                }
            }
        }
    }
}

/// Every position that a valid stash names is one of an authority with stake.
pub proof fn lemma_indices_in_range(
    committee: &Committee,
    message: Seq<u8>,
    stash: Seq<(AuthorityName, AuthoritySignature)>,
)
    requires
        committee.is_well_formed(),
        is_valid_stash(committee, message, stash),
    ensures
        forall|x: u32| #[trigger]
            indices_of(committee, stash).contains(x) ==> x < committee.members().len()
                && committee.members()[x as int].1 > 0,
{
    assert forall|x: u32| #[trigger] indices_of(committee, stash).contains(x) implies x
        < committee.members().len() && committee.members()[x as int].1 > 0 by {
        let j = choose|j: int|
            0 <= j < stash.len() && committee.spec_index((#[trigger] stash[j]).0) == Some(
                x as int,
            );
        assert(committee.spec_weight(stash[j].0) > 0);
        lemma_index_names(committee, stash[j].0);
    }
}

/// Gathers the signatures of authorities on one transaction until the signers hold a
/// quorum of the stake, and then makes the certificate.
#[derive(Debug)]
pub struct SignatureAggregator<'a> {
    committee: &'a Committee,
    weight: StakeUnit,
    stash: Vec<(AuthorityName, AuthoritySignature)>,
    partial: CertifiedTransaction,
}

impl<'a> SignatureAggregator<'a> {
    /// The committee under which the signatures are gathered.
    pub closed spec fn committee(&self) -> &Committee {
        self.committee
    }

    /// The stake of the authorities that have signed.
    pub closed spec fn weight(&self) -> StakeUnit {
        self.weight
    }

    /// The signatures gathered, in the order of the authorities' names.
    pub closed spec fn stash(&self) -> Seq<(AuthorityName, AuthoritySignature)> {
        self.stash@
    }

    /// The sender-signed data of the transaction.
    pub closed spec fn data(&self) -> SenderSignedDataView {
        self.partial.data()
    }

    /// What the certificate carries of the authorities: nothing before the signers
    /// reach a quorum, and from then on what was made when they reached it.
    pub closed spec fn certificate_info(&self) -> AuthorityStrongQuorumSignInfo {
        self.partial.auth()
    }

    /// What the authorities sign.
    pub open spec fn message(&self) -> Seq<u8> {
        enc_sender_signed_data(self.data())
    }

    /// Whether the signers have reached a quorum.
    pub open spec fn is_complete(&self) -> bool {
        self.weight() >= self.committee().spec_quorum_threshold()
    }

    /// Whether the aggregator is in a state that `new_unsafe` and `append` lead to.
    pub open spec fn is_well_formed(&self) -> bool {
        &&& self.committee().is_well_formed()
        &&& is_valid_stash(self.committee(), self.message(), self.stash())
        &&& self.weight() == stake_of(
            self.committee().members(),
            indices_of(self.committee(), self.stash()),
        )
        &&& self.certificate_info().epoch == self.committee().spec_epoch()
        &&& self.is_complete() ==> {
            &&& quorum_check(
                self.certificate_info().epoch,
                self.certificate_info().signers(),
                self.committee(),
            ).is_ok()
            &&& self.certificate_info().signers().subset_of(
                indices_of(self.committee(), self.stash()),
            )
        }
        &&& !self.is_complete() ==> self.certificate_info().signers() == Set::<u32>::empty()
        &&& !self.certificate_marked()
    }

    /// Whether the certificate in the making is marked as verified.
    pub closed spec fn certificate_marked(&self) -> bool {
        self.partial.verified_mark()
    }

    /// Starts to gather signatures for `transaction`, after checking the signature of
    /// its sender.
    pub fn try_new(
        transaction: Transaction,
        committee: &'a Committee,
    ) -> (r: Result<Self, SuiError>)
        ensures
            r.is_ok() == (transaction.verified_mark() || sender_accepted(transaction.data())),
            r matches Err(e) ==> e == SuiError::InvalidSignature,
            r matches Ok(agg) ==>
                agg.is_well_formed() && agg.committee() == committee
                && agg.data() == transaction.data() && agg.weight() == 0 && agg.stash().len() == 0,
    {
        transaction.verify()?;
        Ok(Self::new_unsafe(transaction, committee))
    }

    /// Starts to gather signatures for `transaction`, without checking the signature of
    /// its sender.
    pub fn new_unsafe(transaction: Transaction, committee: &'a Committee) -> (r: Self)
        ensures
            r.is_well_formed(),
            r.committee() == committee,
            r.data() == transaction.data(),
            r.weight() == 0,
            r.stash().len() == 0,
    {
        let epoch = committee.epoch();
        let partial = CertifiedTransaction::new(epoch, transaction);
        let stash: Vec<(AuthorityName, AuthoritySignature)> = Vec::new();
        proof {
            assert(indices_of(committee, stash@) =~= Set::<u32>::empty());
            lemma_stake_of_empty(committee.members());
        }
        SignatureAggregator { committee, weight: 0, stash, partial }
    }

    /// Takes the signature `signature` of `authority` on the transaction. Returns the
    /// certificate once the signers hold a quorum of the stake, and `None` before.
    ///
    /// It refuses, in this order, a signature that does not verify, an authority that
    /// has signed already, and one without stake in the committee. Where it refuses, the
    /// aggregator is as before. The certificate is made when the quorum is reached:
    /// later signatures are taken and counted, and the same certificate is returned.
    pub fn append(
        &mut self,
        authority: AuthorityName,
        signature: AuthoritySignature,
    ) -> (r: Result<Option<CertifiedTransaction>, SuiError>)
        requires
            old(self).is_well_formed(),
        ensures
            final(self).is_well_formed(),
            final(self).committee() == old(self).committee(),
            final(self).data() == old(self).data(),
            r.is_err() ==> final(self).weight() == old(self).weight() && final(self).stash() == old(
                self,
            ).stash() && final(self).certificate_info() == old(self).certificate_info(),
            r.is_ok() ==> final(self).weight() == old(self).weight() + old(
                self,
            ).committee().spec_weight(authority) && sorted_by_key(final(self).stash())
                && exists|pos: int|
                0 <= pos <= old(self).stash().len() && final(self).stash() == old(
                    self,
                ).stash().insert(pos, (authority, signature)),
            !authority_signature_valid(old(self).message(), signature, authority) ==>
                r == Err::<Option<CertifiedTransaction>, SuiError>(SuiError::InvalidSignature),
            authority_signature_valid(old(self).message(), signature, authority) && has_key(
                old(self).stash(),
                authority.0@,
            ) ==> r == Err::<Option<CertifiedTransaction>, SuiError>(
                SuiError::CertificateAuthorityReuse,
            ),
            authority_signature_valid(old(self).message(), signature, authority) && !has_key(
                old(self).stash(),
                authority.0@,
            ) && old(self).committee().spec_weight(authority) == 0 ==> r == Err::<
                Option<CertifiedTransaction>,
                SuiError,
            >(SuiError::UnknownSigner),
            authority_signature_valid(old(self).message(), signature, authority) && !has_key(
                old(self).stash(),
                authority.0@,
            ) && old(self).committee().spec_weight(authority) > 0 ==> {
                let new_stash = final(self).stash();
                if old(self).weight() + old(self).committee().spec_weight(authority) < old(
                    self,
                ).committee().spec_quorum_threshold() {
                    r == Ok::<Option<CertifiedTransaction>, SuiError>(None)
                } else if old(self).is_complete() {
                    r matches Ok(Some(c)) && c.data() == old(self).data() && !c.verified_mark()
                        && c.auth().epoch == old(self).certificate_info().epoch
                        && c.auth().signature == old(self).certificate_info().signature
                        && c.auth().signers() == old(self).certificate_info().signers()
                        && final(self).certificate_info() == old(self).certificate_info()
                } else {
                    r matches Ok(Some(c)) && c.data() == old(self).data() && !c.verified_mark()
                        && c.auth().epoch == old(self).committee().spec_epoch()
                        && Some(c.auth().signature.0) == bls_aggregated(
                        signature_bytes(signatures_of(new_stash)),
                    ) && c.auth().signers() == indices_of(old(self).committee(), new_stash)
                        && final(self).certificate_info().signers() == c.auth().signers()
                        && final(self).certificate_info().signature == c.auth().signature
                }
            },
    {
        let message = self.partial.signed_data().to_bytes();
        match signature.verify(message.as_slice(), &authority) {
            Err(e) => {
                return Err(e);
            },
            Ok(_) => {},
        }
        // Each authority contributes once.
        let (pos, found) = lower_bound(&self.stash, &authority);
        if found {
            return Err(SuiError::CertificateAuthorityReuse);
        }
        let voting_rights = self.committee.weight(&authority);
        if voting_rights == 0 {
            return Err(SuiError::UnknownSigner);
        }
        let ghost committee = self.committee;
        let ghost old_stash = self.stash@;
        let ghost old_set = indices_of(committee, old_stash);
        let mut new_stash = clone_flat(&self.stash);
        insert_sorted(&mut new_stash, authority, signature);
        proof {
            lemma_index_names(committee, authority);
            let i = committee.spec_index(authority)->0;
            let new_set = indices_of(committee, new_stash@);
            let ins = choose|ins: int|
                0 <= ins <= old_stash.len() && new_stash@ == old_stash.insert(
                    ins,
                    (authority, signature),
                );
            assert(is_valid_stash(committee, self.message(), new_stash@)) by {
                assert forall|j: int| 0 <= j < new_stash@.len() implies committee.spec_weight(
                    (#[trigger] new_stash@[j]).0,
                ) > 0 && authority_signature_valid(
                    self.message(),
                    new_stash@[j].1,
                    new_stash@[j].0,
                ) && bls_signature_in_group(new_stash@[j].1.0@) by {
                    if j < ins {
                        assert(committee.spec_weight(old_stash[j].0) > 0);
                    } else if j > ins {
                        assert(committee.spec_weight(old_stash[j - 1].0) > 0);
                    }
                }
            }
            if old_set.contains(i as u32) {
                let j = choose|j: int|
                    0 <= j < old_stash.len()
                        && committee.spec_index((#[trigger] old_stash[j]).0)
                        == Some(i as u32 as int);
                assert(committee.spec_weight(old_stash[j].0) > 0);
                lemma_index_names(committee, old_stash[j].0);
                assert(old_stash[j].0.key() == authority.0@);
            }
            assert(new_set =~= old_set.insert(i as u32)) by {
                assert forall|x: u32| new_set.contains(x) == old_set.insert(i as u32).contains(
                    x,
                ) by {
                    if new_set.contains(x) {
                        let j = choose|j: int|
                            0 <= j < new_stash@.len() && committee.spec_index(
                                (#[trigger] new_stash@[j]).0,
                            ) == Some(x as int);
                        if j < ins {
                            assert(committee.spec_index(old_stash[j].0) == Some(x as int));
                        } else if j > ins {
                            assert(committee.spec_index(old_stash[j - 1].0) == Some(x as int));
                        }
                    }
                    if old_set.contains(x) {
                        let j = choose|j: int|
                            0 <= j < old_stash.len() && committee.spec_index(
                                (#[trigger] old_stash[j]).0,
                            ) == Some(x as int);
                        if j < ins {
                            assert(committee.spec_index(new_stash@[j].0) == Some(x as int));
                        } else {
                            assert(committee.spec_index(new_stash@[j + 1].0) == Some(x as int));
                        }
                    }
                    if x == i as u32 {
                        assert(committee.spec_index(new_stash@[ins].0) == Some(x as int));
                    }
                }
            }
            lemma_stake_of_insert(committee.members(), old_set, i as u32);
            lemma_stake_of_bound(committee.members(), new_set);
            lemma_indices_in_range(committee, self.message(), new_stash@);
            lemma_signers_of_stash(committee, self.message(), new_stash@);
        }
        let new_weight = self.weight + voting_rights;
        let threshold = self.committee.quorum_threshold();
        if new_weight < threshold {
            self.weight = new_weight;
            self.stash = new_stash;
            return Ok(None);
        }
        if self.weight >= threshold {
            self.weight = new_weight;
            self.stash = new_stash;
            return Ok(Some(self.partial.clone()));
        }
        let candidate = clone_flat(&new_stash);
        proof {
            // Every signature of the stash passed its own check, so they can be added.
            let sigs = signatures_of(new_stash@);
            assert(can_be_added(sigs)) by {
                assert forall|j: int| 0 <= j < sigs.len() implies bls_signature_in_group(
                    (#[trigger] sigs[j]).0@,
                ) by {
                    assert(bls_signature_in_group(new_stash@[j].1.0@));
                }
            }
        }
        let info = match AuthorityStrongQuorumSignInfo::new_with_signatures(
            candidate,
            self.committee,
        ) {
            Ok(info) => info,
            Err(e) => {
                // The signers are of the committee, each once, and their signatures can
                // be added: the call does not fail.
                assert(false);
                return Err(e);
            },
        };
        self.partial = self.partial.duplicate_with(info);
        self.weight = new_weight;
        self.stash = new_stash;
        Ok(Some(self.partial.clone()))
    }
}

/// No authority signs twice: the signatures that an aggregator has gathered are of
/// authorities that differ one from another, and so are the signers of the certificate
/// that it makes of them.
pub proof fn lemma_no_double_vote(aggregator: &SignatureAggregator)
    requires
        aggregator.is_well_formed(),
    ensures
        forall|i: int, j: int|
            0 <= i < j < aggregator.stash().len() ==>
                (#[trigger] aggregator.stash()[i]).0 != (#[trigger] aggregator.stash()[j]).0,
{
    assert forall|i: int, j: int| 0 <= i < j < aggregator.stash().len()
        implies (#[trigger] aggregator.stash()[i]).0 != (#[trigger] aggregator.stash()[j]).0 by {
        assert(crate::lex::lex_lt(aggregator.stash()[i].0.key(), aggregator.stash()[j].0.key()));
        lemma_lex_irreflexive(aggregator.stash()[i].0.key());
    }
}

/// The certificate of an aggregator that has reached the quorum passes every check of
/// its verification but the last: its epoch is the committee's, its signers are
/// authorities with stake that hold a quorum together, and so it verifies exactly when
/// the sender's signature is accepted and the sum of the signatures verifies under the
/// signers' keys.
pub proof fn lemma_certificate_holds_quorum(aggregator: &SignatureAggregator)
    requires
        aggregator.is_well_formed(),
        aggregator.is_complete(),
    ensures
        quorum_check(
            aggregator.certificate_info().epoch,
            aggregator.certificate_info().signers(),
            aggregator.committee(),
        ).is_ok(),
        stake_of(aggregator.committee().members(), aggregator.certificate_info().signers())
            >= aggregator.committee().spec_quorum_threshold(),
        crate::certified::certificate_valid(
            false,
            aggregator.data(),
            aggregator.certificate_info(),
            aggregator.committee(),
        ) == (sender_accepted(aggregator.data()) && crate::sign_info::entry_valid(
            aggregator.message(),
            seq![AuthoritySignature(aggregator.certificate_info().signature.0)],
            crate::committee::names_of(
                aggregator.committee().members(),
                aggregator.certificate_info().signers(),
            ),
        )),
{
}

/// The quorum is a sharp boundary: a signature that brings the stake of the signers to
/// one less than the threshold gives no certificate, and one that brings it to the
/// threshold gives the certificate, of the data of the aggregator's transaction and of
/// the epoch of the committee.
pub proof fn lemma_quorum_boundary(
    aggregator: &mut SignatureAggregator,
    authority: AuthorityName,
    signature: AuthoritySignature,
    r: Result<Option<CertifiedTransaction>, SuiError>,
)
    requires
        call_ensures(SignatureAggregator::append, (aggregator, authority, signature), r),
        authority_signature_valid(old(aggregator).message(), signature, authority),
        !has_key(old(aggregator).stash(), authority.0@),
        old(aggregator).committee().spec_weight(authority) > 0,
    ensures
        old(aggregator).weight() + old(aggregator).committee().spec_weight(authority) == old(
            aggregator,
        ).committee().spec_quorum_threshold() - 1 ==> r == Ok::<
            Option<CertifiedTransaction>,
            SuiError,
        >(None),
        old(aggregator).weight() + old(aggregator).committee().spec_weight(authority) == old(
            aggregator,
        ).committee().spec_quorum_threshold() ==> (r matches Ok(Some(c)) && c.data() == old(
            aggregator,
        ).data() && c.auth().epoch == old(aggregator).committee().spec_epoch()),
{
}

/// Without authorities among the signers there is no stake.
pub proof fn lemma_stake_of_empty(s: Seq<(AuthorityName, StakeUnit)>)
    ensures
        stake_of(s, Set::<u32>::empty()) == 0,
    decreases s.len(),
{
    if s.len() > 0 {
        lemma_stake_of_empty(s.drop_last());
    }
}

} // verus!
