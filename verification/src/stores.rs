//! The three persistent tables, each a vector of key-value pairs with
//! distinct keys, seen through a `Map` view.
//!
//! [`ProposalStore`] keys proposal records by their byte-sequence
//! identifier; [`VoterStore`] keys remaining credit and [`VoteLedger`]
//! the single live position by account.  Every method's contract is
//! stated over the map view, so the state machine in [`crate::voting`]
//! never reasons about vectors.

use vstd::prelude::*;

use crate::bytes::bytes_eq;
use crate::kvseq::{
    distinct_keys, kv_map, lemma_kv_map_domain, lemma_kv_map_index, lemma_kv_map_push,
    lemma_kv_map_remove, lemma_kv_map_update,
};
use crate::model::{create_outcome, Error, ProposalView, VoteView};

verus! {

/// A stored proposal record.
#[derive(Clone, Copy, Debug, PartialEq, Eq, Structural)]
pub struct Proposal {
    /// The account that created the proposal.
    pub proposer: u64,
    /// Set while the proposal accepts votes; nothing ever clears it.
    pub active: bool,
    /// The signed running tally of cast deltas.
    pub tally: i64,
}

impl View for Proposal {
    type V = ProposalView;

    open spec fn view(&self) -> ProposalView {
        ProposalView { proposer: self.proposer, active: self.active, tally: self.tally as int }
    }
}

/// The proposal table.
pub struct ProposalStore {
    entries: Vec<(Vec<u8>, Proposal)>,
}

impl View for ProposalStore {
    type V = Map<Seq<u8>, ProposalView>;

    closed spec fn view(&self) -> Map<Seq<u8>, ProposalView> {
        kv_map(self.entries_view())
    }
}

impl ProposalStore {
    /// The entries as the pairs of their views.
    pub closed spec fn entries_view(&self) -> Seq<(Seq<u8>, ProposalView)> {
        Seq::new(self.entries@.len(), |j: int| (self.entries@[j].0@, self.entries@[j].1@))
    }

    /// The table's shape: no identifier occurs twice.
    pub closed spec fn wf(&self) -> bool {
        distinct_keys(self.entries_view())
    }

    /// An empty table.
    pub fn new() -> (s: Self)
        ensures
            s.wf(),
            s@ == Map::<Seq<u8>, ProposalView>::empty(),
    {
        let s = ProposalStore { entries: Vec::new() };
        proof {
            assert(s.entries_view() =~= Seq::<(Seq<u8>, ProposalView)>::empty());
        }
        s
    }

    /// The position holding the identifier, if any.
    fn find(&self, id: &Vec<u8>) -> (r: Option<usize>)
        ensures
            match r {
                Some(i) => i < self.entries_view().len() && self.entries_view()[i as int].0 == id@,
                None => forall|j: int|
                    0 <= j < self.entries_view().len() ==> self.entries_view()[j].0 != id@,
            },
    {
        let mut i: usize = 0;
        while i < self.entries.len()
            invariant
                i <= self.entries@.len(),
                forall|j: int| 0 <= j < i ==> self.entries_view()[j].0 != id@,
            decreases self.entries@.len() - i,
        {
            if bytes_eq(&self.entries[i].0, id) {
                return Some(i);
            }
            i = i + 1;
        }
        None
    }

    /// Whether the identifier names a stored proposal.
    pub fn contains(&self, id: &Vec<u8>) -> (r: bool)
        requires
            self.wf(),
        ensures
            r == self@.contains_key(id@),
    {
        match self.find(id) {
            Some(i) => {
                proof {
                    lemma_kv_map_index(self.entries_view(), i as int);
                }
                true
            },
            None => {
                proof {
                    lemma_kv_map_domain(self.entries_view(), id@);
                }
                false
            },
        }
    }

    /// The stored record under the identifier, if any.
    pub fn get(&self, id: &Vec<u8>) -> (r: Option<Proposal>)
        requires
            self.wf(),
        ensures
            r is Some <==> self@.contains_key(id@),
            r matches Some(p) ==> self@[id@] == p@,
    {
        match self.find(id) {
            Some(i) => {
                proof {
                    lemma_kv_map_index(self.entries_view(), i as int);
                }
                Some(self.entries[i].1)
            },
            None => {
                proof {
                    lemma_kv_map_domain(self.entries_view(), id@);
                }
                None
            },
        }
    }

    /// Stores a fresh record with a zero tally under the identifier,
    /// silently overwriting whatever stood there; only an empty
    /// identifier is refused.
    pub fn create(&mut self, proposer: u64, id: Vec<u8>) -> (r: Result<(), Error>)
        requires
            old(self).wf(),
        ensures
            final(self).wf(),
            r == create_outcome(id@),
            r is Ok ==> final(self)@ == old(self)@.insert(
                id@,
                ProposalView { proposer, active: true, tally: 0 },
            ),
            r is Err ==> final(self)@ == old(self)@,
    {
        if id.len() == 0 {
            return Err(Error::EmptyProposalId);
        }
        self.upsert(id, Proposal { proposer, active: true, tally: 0 });
        Ok(())
    }

    /// Adds the delta to the stored tally; a missing proposal is the
    /// fault of whoever skipped the existence check, answered as an
    /// invariant violation with nothing changed.
    pub fn adjust_tally(&mut self, id: &Vec<u8>, delta: i64) -> (r: Result<(), Error>)
        requires
            old(self).wf(),
            old(self)@.contains_key(id@) ==> i64::MIN <= old(self)@[id@].tally + delta
                <= i64::MAX,
        ensures
            final(self).wf(),
            old(self)@.contains_key(id@) ==> r == Ok::<(), Error>(()) && final(self)@ == old(
                self,
            )@.insert(
                id@,
                ProposalView {
                    tally: old(self)@[id@].tally + delta,
                    ..old(self)@[id@]
                },
            ),
            !old(self)@.contains_key(id@) ==> r == Err::<(), Error>(Error::InvariantViolation)
                && final(self)@ == old(self)@,
    {
        let ghost s0 = self.entries_view();
        match self.find(id) {
            Some(i) => {
                proof {
                    lemma_kv_map_index(s0, i as int);
                }
                let cur: Proposal = self.entries[i].1;
                let updated = Proposal {
                    proposer: cur.proposer,
                    active: cur.active,
                    tally: cur.tally + delta,
                };
                let e = vstd::std_specs::vec::vec_index_mut(&mut self.entries, i);
                e.1 = updated;
                proof {
                    assert(self.entries_view() =~= s0.update(i as int, (s0[i as int].0, updated@)));
                    lemma_kv_map_update(s0, i as int, updated@);
                    assert(self@ =~= old(self)@.insert(
                        id@,
                        ProposalView {
                            tally: old(self)@[id@].tally + delta,
                            ..old(self)@[id@]
                        },
                    ));
                }
                Ok(())
            },
            None => {
                proof {
                    lemma_kv_map_domain(s0, id@);
                }
                Err(Error::InvariantViolation)
            },
        }
    }

    /// Stores the record under the identifier, replacing any old one.
    fn upsert(&mut self, id: Vec<u8>, p: Proposal)
        requires
            old(self).wf(),
        ensures
            final(self).wf(),
            final(self)@ == old(self)@.insert(id@, p@),
    {
        let ghost s0 = self.entries_view();
        match self.find(&id) {
            Some(i) => {
                self.entries[i] = (id, p);
                proof {
                    assert(self.entries_view() =~= s0.update(i as int, (s0[i as int].0, p@)));
                    lemma_kv_map_update(s0, i as int, p@);
                    assert(self@ =~= old(self)@.insert(s0[i as int].0, p@));
                }
            },
            None => {
                self.entries.push((id, p));
                proof {
                    assert(self.entries_view() =~= s0.push((id@, p@)));
                    lemma_kv_map_push(s0, id@, p@);
                    assert(distinct_keys(self.entries_view()));
                }
            },
        }
    }
}

/// The voter table: account to remaining credit.
pub struct VoterStore {
    entries: Vec<(u64, u64)>,
}

impl View for VoterStore {
    type V = Map<u64, int>;

    closed spec fn view(&self) -> Map<u64, int> {
        kv_map(self.entries_view())
    }
}

impl VoterStore {
    /// The entries with credits read as integers.
    pub closed spec fn entries_view(&self) -> Seq<(u64, int)> {
        Seq::new(self.entries@.len(), |j: int| (self.entries@[j].0, self.entries@[j].1 as int))
    }

    /// The table's shape: no account occurs twice.
    pub closed spec fn wf(&self) -> bool {
        distinct_keys(self.entries_view())
    }

    /// An empty table.
    pub fn new() -> (s: Self)
        ensures
            s.wf(),
            s@ == Map::<u64, int>::empty(),
    {
        let s = VoterStore { entries: Vec::new() };
        proof {
            assert(s.entries_view() =~= Seq::<(u64, int)>::empty());
        }
        s
    }

    /// The position holding the account, if any.
    fn find(&self, who: u64) -> (r: Option<usize>)
        ensures
            match r {
                Some(i) => i < self.entries_view().len() && self.entries_view()[i as int].0 == who,
                None => forall|j: int|
                    0 <= j < self.entries_view().len() ==> self.entries_view()[j].0 != who,
            },
    {
        let mut i: usize = 0;
        while i < self.entries.len()
            invariant
                i <= self.entries@.len(),
                forall|j: int| 0 <= j < i ==> self.entries_view()[j].0 != who,
            decreases self.entries@.len() - i,
        {
            if self.entries[i].0 == who {
                return Some(i);
            }
            i = i + 1;
        }
        None
    }

    /// Whether the account is registered.
    pub fn contains(&self, who: u64) -> (r: bool)
        requires
            self.wf(),
        ensures
            r == self@.contains_key(who),
    {
        match self.find(who) {
            Some(i) => {
                proof {
                    lemma_kv_map_index(self.entries_view(), i as int);
                }
                true
            },
            None => {
                proof {
                    lemma_kv_map_domain(self.entries_view(), who);
                }
                false
            },
        }
    }

    /// The account's remaining credit, if it is registered.
    pub fn get(&self, who: u64) -> (r: Option<u64>)
        requires
            self.wf(),
        ensures
            r is Some <==> self@.contains_key(who),
            r matches Some(c) ==> self@[who] == c as int,
    {
        match self.find(who) {
            Some(i) => {
                proof {
                    lemma_kv_map_index(self.entries_view(), i as int);
                }
                Some(self.entries[i].1)
            },
            None => {
                proof {
                    lemma_kv_map_domain(self.entries_view(), who);
                }
                None
            },
        }
    }

    /// Sets the account's credit, registering it if need be.
    pub fn insert(&mut self, who: u64, credit: u64)
        requires
            old(self).wf(),
        ensures
            final(self).wf(),
            final(self)@ == old(self)@.insert(who, credit as int),
    {
        let ghost s0 = self.entries_view();
        match self.find(who) {
            Some(i) => {
                self.entries[i] = (who, credit);
                proof {
                    assert(self.entries_view() =~= s0.update(
                        i as int,
                        (s0[i as int].0, credit as int),
                    ));
                    lemma_kv_map_update(s0, i as int, credit as int);
                    assert(self@ =~= old(self)@.insert(who, credit as int));
                }
            },
            None => {
                self.entries.push((who, credit));
                proof {
                    assert(self.entries_view() =~= s0.push((who, credit as int)));
                    lemma_kv_map_push(s0, who, credit as int);
                    assert(distinct_keys(self.entries_view()));
                }
            },
        }
    }

    /// Drops the account's record, if any.
    pub fn remove(&mut self, who: u64)
        requires
            old(self).wf(),
        ensures
            final(self).wf(),
            final(self)@ == old(self)@.remove(who),
    {
        let ghost s0 = self.entries_view();
        match self.find(who) {
            Some(i) => {
                self.entries.remove(i);
                proof {
                    assert(self.entries_view() =~= s0.remove(i as int));
                    lemma_kv_map_remove(s0, i as int);
                    assert(self@ =~= old(self)@.remove(who));
                }
            },
            None => {
                proof {
                    lemma_kv_map_domain(s0, who);
                    assert(self@ =~= old(self)@.remove(who));
                }
            },
        }
    }
}

/// A voter's stored live position.
#[derive(Debug)]
pub struct VoteRecord {
    /// The proposal the position is staked on.
    pub proposal_id: Vec<u8>,
    /// The signed cumulative stake.
    pub net_votes: i64,
}

impl View for VoteRecord {
    type V = VoteView;

    open spec fn view(&self) -> VoteView {
        VoteView { proposal: self.proposal_id@, net: self.net_votes as int }
    }
}

/// The vote table: account to its single live position.
pub struct VoteLedger {
    entries: Vec<(u64, VoteRecord)>,
}

impl View for VoteLedger {
    type V = Map<u64, VoteView>;

    closed spec fn view(&self) -> Map<u64, VoteView> {
        kv_map(self.entries_view())
    }
}

impl VoteLedger {
    /// The entries as the pairs of their views.
    pub closed spec fn entries_view(&self) -> Seq<(u64, VoteView)> {
        Seq::new(self.entries@.len(), |j: int| (self.entries@[j].0, self.entries@[j].1@))
    }

    /// The table's shape: no account occurs twice.
    pub closed spec fn wf(&self) -> bool {
        distinct_keys(self.entries_view())
    }

    /// An empty table.
    pub fn new() -> (s: Self)
        ensures
            s.wf(),
            s@ == Map::<u64, VoteView>::empty(),
    {
        let s = VoteLedger { entries: Vec::new() };
        proof {
            assert(s.entries_view() =~= Seq::<(u64, VoteView)>::empty());
        }
        s
    }

    /// The position holding the account, if any.
    fn find(&self, who: u64) -> (r: Option<usize>)
        ensures
            match r {
                Some(i) => i < self.entries_view().len() && self.entries_view()[i as int].0 == who,
                None => forall|j: int|
                    0 <= j < self.entries_view().len() ==> self.entries_view()[j].0 != who,
            },
    {
        let mut i: usize = 0;
        while i < self.entries.len()
            invariant
                i <= self.entries@.len(),
                forall|j: int| 0 <= j < i ==> self.entries_view()[j].0 != who,
            decreases self.entries@.len() - i,
        {
            if self.entries[i].0 == who {
                return Some(i);
            }
            i = i + 1;
        }
        None
    }

    /// The account's live position, if any.
    pub fn get(&self, who: u64) -> (r: Option<&VoteRecord>)
        requires
            self.wf(),
        ensures
            r is Some <==> self@.contains_key(who),
            r matches Some(rec) ==> self@[who] == rec@,
    {
        match self.find(who) {
            Some(i) => {
                proof {
                    lemma_kv_map_index(self.entries_view(), i as int);
                }
                Some(&self.entries[i].1)
            },
            None => {
                proof {
                    lemma_kv_map_domain(self.entries_view(), who);
                }
                None
            },
        }
    }

    /// Stores the position under the account, replacing any old one.
    pub fn upsert(&mut self, who: u64, rec: VoteRecord)
        requires
            old(self).wf(),
        ensures
            final(self).wf(),
            final(self)@ == old(self)@.insert(who, rec@),
    {
        let ghost s0 = self.entries_view();
        let ghost v = rec@;
        match self.find(who) {
            Some(i) => {
                self.entries[i] = (who, rec);
                proof {
                    assert(self.entries_view() =~= s0.update(i as int, (s0[i as int].0, v)));
                    lemma_kv_map_update(s0, i as int, v);
                    assert(self@ =~= old(self)@.insert(who, v));
                }
            },
            None => {
                self.entries.push((who, rec));
                proof {
                    assert(self.entries_view() =~= s0.push((who, v)));
                    lemma_kv_map_push(s0, who, v);
                    assert(distinct_keys(self.entries_view()));
                }
            },
        }
    }

    /// Drops the account's position, if any.
    pub fn remove(&mut self, who: u64)
        requires
            old(self).wf(),
        ensures
            final(self).wf(),
            final(self)@ == old(self)@.remove(who),
    {
        let ghost s0 = self.entries_view();
        match self.find(who) {
            Some(i) => {
                self.entries.remove(i);
                proof {
                    assert(self.entries_view() =~= s0.remove(i as int));
                    lemma_kv_map_remove(s0, i as int);
                    assert(self@ =~= old(self)@.remove(who));
                }
            },
            None => {
                proof {
                    lemma_kv_map_domain(s0, who);
                    assert(self@ =~= old(self)@.remove(who));
                }
            },
        }
    }
}

} // verus!
