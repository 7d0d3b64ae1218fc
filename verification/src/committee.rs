//! The committee of an epoch: its authorities, their stake, and the thresholds that a
//! set of signers must reach.

use crate::base_types::AuthorityName;
use crate::error::{SuiError, SuiResult};
use crate::lex::{
    has_key, insert_sorted, lemma_lex_irreflexive, lemma_lex_transitive, lex_lt, lower_bound,
    sorted_by_key, ByteKey,
};
use crate::transaction::EpochId;
use vstd::prelude::*;

verus! {

/// An amount of stake.
pub type StakeUnit = u64;

/// The stake of the entries of `s`, added up.
pub open spec fn stake_sum(s: Seq<(AuthorityName, StakeUnit)>) -> nat
    decreases s.len(),
{
    if s.len() == 0 {
        0
    } else {
        stake_sum(s.drop_last()) + s.last().1 as nat
    }
}

/// The stake of those entries of `s` whose position is in `signers`, added up.
pub open spec fn stake_of(s: Seq<(AuthorityName, StakeUnit)>, signers: Set<u32>) -> nat
    decreases s.len(),
{
    if s.len() == 0 {
        0
    } else {
        stake_of(s.drop_last(), signers) + if signers.contains((s.len() - 1) as u32) {
            s.last().1 as nat
        } else {
            0
        }
    }
}

/// The names of those entries of `s` whose position is in `signers`, in their order.
pub open spec fn names_of(s: Seq<(AuthorityName, StakeUnit)>, signers: Set<u32>) -> Seq<
    AuthorityName,
>
    decreases s.len(),
{
    if s.len() == 0 {
        Seq::empty()
    } else if signers.contains((s.len() - 1) as u32) {
        names_of(s.drop_last(), signers).push(s.last().0)
    } else {
        names_of(s.drop_last(), signers)
    }
}

/// Whether no two entries of `s` have the same name.
pub open spec fn distinct_names(s: Seq<(AuthorityName, StakeUnit)>) -> bool {
    forall|i: int, j: int| 0 <= i < j < s.len() ==> (#[trigger] s[i]).0 != (#[trigger] s[j]).0
}

/// Whether `s` can be the voting rights of a committee: it names at least one
/// authority and at most as many as a `u32` counts, none twice, not all without stake,
/// and the whole stake fits in a `u64`.
pub open spec fn is_valid_voting_rights(s: Seq<(AuthorityName, StakeUnit)>) -> bool {
    &&& 0 < s.len() <= u32::MAX
    &&& distinct_names(s)
    &&& stake_sum(s) <= u64::MAX
    &&& stake_sum(s) > 0
}

/// The least stake that is more than two thirds of `total`.
pub open spec fn quorum_of(total: nat) -> nat {
    (2 * total / 3 + 1) as nat
}

/// The least stake that is more than one third of `total`.
pub open spec fn validity_of(total: nat) -> nat {
    (total / 3 + 1) as nat
}

/// Putting an entry into a list adds its stake to the list's.
pub proof fn lemma_stake_sum_insert(
    s: Seq<(AuthorityName, StakeUnit)>,
    pos: int,
    x: (AuthorityName, StakeUnit),
)
    requires
        0 <= pos <= s.len(),
    ensures
        stake_sum(s.insert(pos, x)) == stake_sum(s) + x.1,
    decreases s.len() - pos,
{
    if pos == s.len() {
        assert(s.insert(pos, x).drop_last() =~= s);
    } else {
        assert(s.insert(pos, x).drop_last() =~= s.drop_last().insert(pos, x));
        assert(s.insert(pos, x).last() == s.last());
        lemma_stake_sum_insert(s.drop_last(), pos, x);
    }
}

/// The stake of a prefix is at most the stake of the whole.
pub proof fn lemma_stake_sum_prefix(s: Seq<(AuthorityName, StakeUnit)>, n: int)
    requires
        0 <= n <= s.len(),
    ensures
        stake_sum(s.take(n)) <= stake_sum(s),
    decreases s.len() - n,
{
    if n == s.len() {
        assert(s.take(n) =~= s);
    } else {
        assert(s.drop_last().take(n) =~= s.take(n));
        lemma_stake_sum_prefix(s.drop_last(), n);
    }
}

/// The stake of some entries is at most the stake of all.
pub proof fn lemma_stake_of_bound(s: Seq<(AuthorityName, StakeUnit)>, signers: Set<u32>)
    ensures
        stake_of(s, signers) <= stake_sum(s),
    decreases s.len(),
{
    if s.len() > 0 {
        lemma_stake_of_bound(s.drop_last(), signers);
    }
}

/// The authorities of an epoch with their stake. It does not change once made: a new
/// epoch has a new committee.
#[derive(Debug)]
pub struct Committee {
    epoch: EpochId,
    voting_rights: Vec<(AuthorityName, StakeUnit)>,
    total_votes: StakeUnit,
}

impl Committee {
    /// The authorities with their stake, in the order of their names.
    pub closed spec fn members(&self) -> Seq<(AuthorityName, StakeUnit)> {
        self.voting_rights@
    }

    /// The epoch of the committee.
    pub closed spec fn spec_epoch(&self) -> EpochId {
        self.epoch
    }

    /// The whole stake of the committee.
    pub open spec fn spec_total(&self) -> nat {
        stake_sum(self.members())
    }

    /// Whether the committee is as `new` makes it: its authorities in the strict order
    /// of their names, at least one and at most as many as a `u32` counts, and their
    /// whole stake positive and within a `u64`.
    pub open spec fn is_well_formed(&self) -> bool {
        &&& sorted_by_key(self.members())
        &&& 0 < self.members().len() <= u32::MAX
        &&& 0 < self.spec_total() <= u64::MAX
    }

    #[verifier::type_invariant]
    closed spec fn inv(&self) -> bool {
        self.is_well_formed() && self.total_votes == self.spec_total()
    }

    /// The position of `name` among the authorities, where it is one.
    pub open spec fn spec_index(&self, name: AuthorityName) -> Option<int> {
        if has_key(self.members(), name.0@) {
            Some(
                choose|i: int|
                    0 <= i < self.members().len()
                        && (#[trigger] self.members()[i]).0.key() == name.0@,
            )
        } else {
            None
        }
    }

    /// The stake of `name`: zero where it is no authority of the committee.
    pub open spec fn spec_weight(&self, name: AuthorityName) -> StakeUnit {
        match self.spec_index(name) {
            Some(i) => self.members()[i].1,
            None => 0,
        }
    }

    /// The stake that a certificate's signers must hold.
    pub open spec fn spec_quorum_threshold(&self) -> nat {
        quorum_of(self.spec_total())
    }

    /// The stake that proves that an honest authority is among the signers.
    pub open spec fn spec_validity_threshold(&self) -> nat {
        validity_of(self.spec_total())
    }

    /// The committee of `epoch` with the authorities and stakes of `voting_rights`,
    /// which it puts in the order of the names.
    pub fn new(
        epoch: EpochId,
        voting_rights: Vec<(AuthorityName, StakeUnit)>,
    ) -> (r: SuiResult<Committee>)
        ensures
            r.is_ok() == is_valid_voting_rights(voting_rights@),
            r matches Err(e) ==> e == SuiError::InvalidCommittee,
            r matches Ok(c) ==> {
                &&& c.is_well_formed()
                &&& c.spec_epoch() == epoch
                &&& c.members().len() == voting_rights@.len()
                &&& c.spec_total() == stake_sum(voting_rights@)
                &&& forall|p: (AuthorityName, StakeUnit)|
                    c.members().contains(p) <==> voting_rights@.contains(p)
            },
    {
        if voting_rights.len() == 0 || voting_rights.len() > u32::MAX as usize {
            return Err(SuiError::InvalidCommittee);
        }
        let mut sorted: Vec<(AuthorityName, StakeUnit)> = Vec::new();
        let mut total: StakeUnit = 0;
        let mut i: usize = 0;
        while i < voting_rights.len()
            invariant
                i <= voting_rights.len(),
                sorted_by_key(sorted@),
                sorted@.len() == i,
                distinct_names(voting_rights@.take(i as int)),
                total == stake_sum(sorted@),
                total == stake_sum(voting_rights@.take(i as int)),
                forall|p: (AuthorityName, StakeUnit)|
                    sorted@.contains(p) <==> voting_rights@.take(i as int).contains(p),
            decreases voting_rights.len() - i,
        {
            let (name, stake) = voting_rights[i];
            let ghost before = sorted@;
            let ghost prefix = voting_rights@.take(i as int);
            let ghost next = voting_rights@.take(i as int + 1);
            assert(next.drop_last() =~= prefix);
            assert(next.last() == (name, stake));
            if !insert_sorted(&mut sorted, name, stake) {
                proof {
                    let j = choose|j: int|
                        0 <= j < before.len() && (#[trigger] before[j]).0.key() == name.key();
                    assert(before.contains(before[j]));
                    let k = choose|k: int| 0 <= k < prefix.len() && prefix[k] == before[j];
                    assert(voting_rights@[k].0.0 =~= voting_rights@[i as int].0.0);
                    assert(!distinct_names(voting_rights@));
                }
                return Err(SuiError::InvalidCommittee);
            }
            proof {
                let pos = choose|pos: int|
                    0 <= pos <= before.len() && sorted@ == before.insert(pos, (name, stake));
                lemma_stake_sum_insert(before, pos, (name, stake));
                assert forall|p: (AuthorityName, StakeUnit)| sorted@.contains(p) <==> next.contains(
                    p,
                ) by {
                    if sorted@.contains(p) {
                        let x = choose|x: int| 0 <= x < sorted@.len() && sorted@[x] == p;
                        if x < pos {
                            assert(before[x] == p);
                            assert(before.contains(p));
                        } else if x > pos {
                            assert(before[x - 1] == p);
                            assert(before.contains(p));
                        }
                        if before.contains(p) {
                            let y = choose|y: int| 0 <= y < prefix.len() && prefix[y] == p;
                            assert(next[y] == p);
                        } else {
                            assert(next[i as int] == p);
                        }
                    }
                    if next.contains(p) {
                        let y = choose|y: int| 0 <= y < next.len() && next[y] == p;
                        if y < i {
                            assert(prefix[y] == p);
                            assert(prefix.contains(p));
                            assert(before.contains(p));
                            let x = choose|x: int| 0 <= x < before.len() && before[x] == p;
                            if x < pos {
                                assert(sorted@[x] == p);
                            } else {
                                assert(sorted@[x + 1] == p);
                            }
                        } else {
                            assert(sorted@[pos] == p);
                        }
                    }
                }
                assert(distinct_names(next)) by {
                    assert forall|a: int, b: int| 0 <= a < b < next.len()
                        implies (#[trigger] next[a]).0 != (#[trigger] next[b]).0 by {
                        if b < i {
                            assert(prefix[a].0 != prefix[b].0);
                        } else {
                            assert(prefix.contains(prefix[a]));
                            assert(before.contains(prefix[a]));
                            let x = choose|x: int| 0 <= x < before.len() && before[x] == prefix[a];
                            assert(before[x].0.key() != name.key());
                        }
                    }
                }
            }
            match total.checked_add(stake) {
                Some(sum) => {
                    total = sum;
                },
                None => {
                    proof {
                        lemma_stake_sum_prefix(voting_rights@, i as int + 1);
                    }
                    return Err(SuiError::InvalidCommittee);
                },
            }
            i += 1;
        }
        assert(voting_rights@.take(voting_rights.len() as int) =~= voting_rights@);
        if total == 0 {
            return Err(SuiError::InvalidCommittee);
        }
        Ok(Committee { epoch, voting_rights: sorted, total_votes: total })
    }

    /// The committee of `epoch` with the authorities and stakes of `voting_rights` as
    /// they stand, where they stand in the strict order of the names and can be the
    /// voting rights of a committee.
    pub fn from_ordered(
        epoch: EpochId,
        voting_rights: Vec<(AuthorityName, StakeUnit)>,
    ) -> (r: Option<Committee>)
        ensures
            r.is_some() == (sorted_by_key(voting_rights@) && 0 < voting_rights@.len() <= u32::MAX
                && 0 < stake_sum(voting_rights@) <= u64::MAX),
            r matches Some(c) ==> c.is_well_formed() && c.spec_epoch() == epoch
                && c.members() == voting_rights@,
    {
        if voting_rights.len() == 0 || voting_rights.len() > u32::MAX as usize {
            return None;
        }
        let mut total: StakeUnit = 0;
        let mut i: usize = 0;
        while i < voting_rights.len()
            invariant
                i <= voting_rights.len(),
                sorted_by_key(voting_rights@.take(i as int)),
                total == stake_sum(voting_rights@.take(i as int)),
            decreases voting_rights.len() - i,
        {
            let ghost prefix = voting_rights@.take(i as int);
            let ghost next = voting_rights@.take(i as int + 1);
            assert(next.drop_last() =~= prefix);
            assert(next.last() == voting_rights@[i as int]);
            if i > 0 && !voting_rights[i - 1].0.key_lt(&voting_rights[i].0) {
                return None;
            }
            proof {
                assert forall|a: int, b: int| 0 <= a < b < next.len() implies lex_lt(
                    #[trigger] next[a].0.key(),
                    #[trigger] next[b].0.key(),
                ) by {
                    if b < i {
                        assert(lex_lt(prefix[a].0.key(), prefix[b].0.key()));
                    } else if a < i - 1 {
                        assert(lex_lt(prefix[a].0.key(), prefix[i as int - 1].0.key()));
                        lemma_lex_transitive(
                            next[a].0.key(),
                            next[i as int - 1].0.key(),
                            next[b].0.key(),
                        );
                    }
                }
            }
            match total.checked_add(voting_rights[i].1) {
                Some(sum) => {
                    total = sum;
                },
                None => {
                    proof {
                        lemma_stake_sum_prefix(voting_rights@, i as int + 1);
                    }
                    return None;
                },
            }
            i += 1;
        }
        assert(voting_rights@.take(voting_rights.len() as int) =~= voting_rights@);
        if total == 0 {
            return None;
        }
        Some(Committee { epoch, voting_rights, total_votes: total })
    }

    /// The authorities with their stake, in the order of their names.
    pub fn voting_rights(&self) -> (r: &Vec<(AuthorityName, StakeUnit)>)
        ensures
            r@ == self.members(),
            self.is_well_formed(),
    {
        proof {
            use_type_invariant(self);
        }
        &self.voting_rights
    }

    /// The epoch of the committee.
    pub fn epoch(&self) -> (r: EpochId)
        ensures
            r == self.spec_epoch(),
            self.is_well_formed(),
    {
        proof {
            use_type_invariant(self);
        }
        self.epoch
    }

    /// The number of authorities.
    pub fn num_members(&self) -> (r: usize)
        ensures
            r == self.members().len(),
            self.is_well_formed(),
    {
        proof {
            use_type_invariant(self);
        }
        self.voting_rights.len()
    }

    /// The position of `name` among the authorities, where it is one.
    pub fn authority_index(&self, name: &AuthorityName) -> (r: Option<u32>)
        ensures
            self.is_well_formed(),
            match r {
                Some(i) => self.spec_index(*name) == Some(i as int) && i < self.members().len()
                    && self.members()[i as int].0 == *name,
                None => self.spec_index(*name).is_none(),
            },
    {
        proof {
            use_type_invariant(self);
        }
        let (pos, found) = lower_bound(&self.voting_rights, name);
        if found {
            proof {
                let i = choose|i: int|
                    0 <= i < self.members().len()
                        && (#[trigger] self.members()[i]).0.key() == name.0@;
                lemma_lex_irreflexive(name.0@);
                assert(self.members()[pos as int].0.0 =~= name.0);
            }
            Some(pos as u32)
        } else {
            None
        }
    }

    /// The authority at the position `index`, where there is one.
    pub fn authority_by_index(&self, index: u32) -> (r: Option<&AuthorityName>)
        ensures
            self.is_well_formed(),
            match r {
                Some(name) =>
                    index < self.members().len() && *name == self.members()[index as int].0,
                None => index >= self.members().len(),
            },
    {
        proof {
            use_type_invariant(self);
        }
        if (index as usize) < self.voting_rights.len() {
            Some(&self.voting_rights[index as usize].0)
        } else {
            None
        }
    }

    /// The stake of the authority at the position `index`.
    pub fn stake_at(&self, index: u32) -> (r: StakeUnit)
        requires
            index < self.members().len(),
        ensures
            r == self.members()[index as int].1,
    {
        self.voting_rights[index as usize].1
    }

    /// The stake of `author`: zero where it is no authority of the committee.
    pub fn weight(&self, author: &AuthorityName) -> (r: StakeUnit)
        ensures
            r == self.spec_weight(*author),
    {
        match self.authority_index(author) {
            Some(i) => self.voting_rights[i as usize].1,
            None => 0,
        }
    }

    /// The whole stake of the committee.
    pub fn total_votes(&self) -> (r: StakeUnit)
        ensures
            r == self.spec_total(),
            self.is_well_formed(),
    {
        proof {
            use_type_invariant(self);
        }
        self.total_votes
    }

    /// The stake that a certificate's signers must hold: two thirds of the whole,
    /// rounded down, and one.
    pub fn quorum_threshold(&self) -> (r: StakeUnit)
        ensures
            r == self.spec_quorum_threshold(),
            0 < r <= self.spec_total(),
    {
        proof {
            use_type_invariant(self);
        }
        let twice: u128 = 2 * (self.total_votes as u128);
        (twice / 3 + 1) as u64
    }

    /// The stake that proves that an honest authority is among the signers: one third
    /// of the whole, rounded down, and one.
    pub fn validity_threshold(&self) -> (r: StakeUnit)
        ensures
            r == self.spec_validity_threshold(),
            0 < r <= self.spec_total(),
    {
        proof {
            use_type_invariant(self);
        }
        self.total_votes / 3 + 1
    }
}

} // verus!
