//! The quadratic voting state machine.
//!
//! [`Pallet`] owns the three persistent tables and exposes the four
//! operations: create a proposal, register, unregister, and cast a
//! vote.  Every operation promises to answer exactly what the model's
//! outcome function says and to move the state exactly where the
//! model's transition function says; the shared invariant
//! [`crate::model::state_inv`] holds after every one of them.

use vstd::prelude::*;

use crate::bytes::{bytes_clone, bytes_eq};
use crate::model::{
    create_outcome, empty_state, lemma_create_preserves_inv, lemma_register_preserves_inv,
    lemma_unregister_preserves_inv, lemma_vote_preserves_inv, previous_net, proposal_created,
    registered, state_inv, unregister_outcome, unregister_tally_fits, unregistered, vote_applied,
    vote_outcome, vote_tally_fits, StateView, INITIAL_CREDITS,
};
pub use crate::model::Error;
use crate::stores::{Proposal, ProposalStore, VoteLedger, VoteRecord, VoterStore};
use crate::token::{TokenLedger, RESERVATION_FEE};

verus! {

/// A domain event, recorded in the order the operations succeeded.
#[derive(Debug, PartialEq, Eq)]
pub enum Event {
    /// A proposal was stored: the proposer and the identifier.
    ProposalAdded(u64, Vec<u8>),
    /// An account registered as a voter.
    UserRegistered(u64),
    /// An account unregistered.
    UserUnregistered(u64),
    /// A vote was cast: the voter, the proposal and the delta.
    VoteDeposited(u64, Vec<u8>, i64),
}

/// A domain event as the contracts see it.
pub enum EventView {
    /// A proposal was stored.
    ProposalAdded { who: u64, proposal: Seq<u8> },
    /// An account registered.
    UserRegistered { who: u64 },
    /// An account unregistered.
    UserUnregistered { who: u64 },
    /// A vote was cast.
    VoteDeposited { who: u64, proposal: Seq<u8>, delta: int },
}

impl View for Event {
    type V = EventView;

    open spec fn view(&self) -> EventView {
        match self {
            Event::ProposalAdded(who, proposal) => EventView::ProposalAdded {
                who: *who,
                proposal: proposal@,
            },
            Event::UserRegistered(who) => EventView::UserRegistered { who: *who },
            Event::UserUnregistered(who) => EventView::UserUnregistered { who: *who },
            Event::VoteDeposited(who, proposal, delta) => EventView::VoteDeposited {
                who: *who,
                proposal: proposal@,
                delta: *delta as int,
            },
        }
    }
}

/// The voting state machine: the three stores and the event log.
pub struct Pallet {
    /// Proposal identifier to proposal record.
    pub proposals: ProposalStore,
    /// Account to remaining credit.
    pub voters: VoterStore,
    /// Account to its single live position.
    pub votes: VoteLedger,
    /// Every event a successful operation signalled, oldest first.
    pub events: Vec<Event>,
}

impl View for Pallet {
    type V = StateView;

    open spec fn view(&self) -> StateView {
        StateView { proposals: self.proposals@, voters: self.voters@, votes: self.votes@ }
    }
}

impl Pallet {
    /// The events as the contracts see them.
    pub open spec fn events_log(&self) -> Seq<EventView> {
        self.events@.map_values(|e: Event| e@)
    }

    /// The machine's well-formedness: each table's shape, and the
    /// reachable-state invariant over the whole.
    pub open spec fn wf(&self) -> bool {
        &&& self.proposals.wf()
        &&& self.voters.wf()
        &&& self.votes.wf()
        &&& state_inv(self@)
    }

    /// A machine with nothing in it.
    pub fn new() -> (p: Pallet)
        ensures
            p.wf(),
            p@ == empty_state(),
            p.events_log() == Seq::<EventView>::empty(),
    {
        let p = Pallet {
            proposals: ProposalStore::new(),
            voters: VoterStore::new(),
            votes: VoteLedger::new(),
            events: Vec::new(),
        };
        proof {
            assert(p@ =~= empty_state());
            assert(p.events_log() =~= Seq::<EventView>::empty());
        }
        p
    }

    /// Stores a proposal under the given identifier with a zero tally,
    /// silently overwriting any record already there; only an empty
    /// identifier is refused, and a refusal changes nothing.
    pub fn set_proposal(&mut self, proposer: u64, proposal: Vec<u8>) -> (r: Result<(), Error>)
        requires
            old(self).wf(),
        ensures
            final(self).wf(),
            r == create_outcome(proposal@),
            r is Ok ==> final(self)@ == proposal_created(old(self)@, proposer, proposal@)
                && final(self).events_log() == old(self).events_log().push(
                EventView::ProposalAdded { who: proposer, proposal: proposal@ },
            ),
            r is Err ==> final(self)@ == old(self)@ && final(self).events_log() == old(
                self,
            ).events_log(),
    {
        let id = bytes_clone(&proposal);
        match self.proposals.create(proposer, id) {
            Ok(()) => {
                self.events.push(Event::ProposalAdded(proposer, proposal));
                proof {
                    assert(self@ =~= proposal_created(old(self)@, proposer, proposal@));
                    assert(self.events_log() =~= old(self).events_log().push(
                        EventView::ProposalAdded { who: proposer, proposal: proposal@ },
                    ));
                    lemma_create_preserves_inv(old(self)@, proposer, proposal@);
                }
                Ok(())
            },
            Err(e) => {
                proof {
                    assert(self@ =~= old(self)@);
                }
                Err(e)
            },
        }
    }

    /// Finishes a registration given the token ledger's answer: a
    /// successful reserve registers the account with the full credit
    /// budget, whatever it held before; a refused reserve changes
    /// nothing and is answered as an insufficient balance.
    pub fn apply_register(&mut self, who: u64, reserved: bool) -> (r: Result<(), Error>)
        requires
            old(self).wf(),
        ensures
            final(self).wf(),
            reserved ==> r == Ok::<(), Error>(()) && final(self)@ == registered(old(self)@, who)
                && final(self).events_log() == old(self).events_log().push(
                EventView::UserRegistered { who },
            ),
            !reserved ==> r == Err::<(), Error>(Error::InsufficientBalance) && final(self)@ == old(
                self,
            )@ && final(self).events_log() == old(self).events_log(),
    {
        if !reserved {
            return Err(Error::InsufficientBalance);
        }
        self.voters.insert(who, INITIAL_CREDITS);
        self.events.push(Event::UserRegistered(who));
        proof {
            assert(self@ =~= registered(old(self)@, who));
            assert(self.events_log() =~= old(self).events_log().push(
                EventView::UserRegistered { who },
            ));
            lemma_register_preserves_inv(old(self)@, who);
        }
        Ok(())
    }

    /// Registers the account: the ledger must first reserve the fixed
    /// deposit, and only then is the account stored with the full
    /// credit budget.  A failed reserve aborts with nothing changed.
    pub fn register<L: TokenLedger>(&mut self, ledger: &mut L, who: u64) -> (r: Result<(), Error>)
        requires
            old(self).wf(),
        ensures
            final(self).wf(),
            r is Ok ==> final(self)@ == registered(old(self)@, who) && final(self).events_log()
                == old(self).events_log().push(EventView::UserRegistered { who }),
            r is Err ==> r == Err::<(), Error>(Error::InsufficientBalance) && final(self)@ == old(
                self,
            )@ && final(self).events_log() == old(self).events_log(),
    {
        let reserved = ledger.reserve(who, RESERVATION_FEE);
        self.apply_register(who, reserved)
    }

    /// Unregisters the account: any live position is reversed out of
    /// its proposal's tally and dropped, the voter record goes, and
    /// the ledger is asked - best effort, failure ignored - to release
    /// the deposit.  An unknown account is refused with nothing
    /// changed.
    pub fn unregister<L: TokenLedger>(&mut self, ledger: &mut L, who: u64) -> (r: Result<
        (),
        Error,
    >)
        requires
            old(self).wf(),
            unregister_tally_fits(old(self)@, who),
        ensures
            final(self).wf(),
            r == unregister_outcome(old(self)@, who),
            r is Ok ==> final(self)@ == unregistered(old(self)@, who) && final(self).events_log()
                == old(self).events_log().push(EventView::UserUnregistered { who }),
            r is Err ==> final(self)@ == old(self)@ && final(self).events_log() == old(
                self,
            ).events_log(),
    {
        if !self.voters.contains(who) {
            return Err(Error::NotRegistered);
        }
        let mut position: Option<(Vec<u8>, i64)> = None;
        match self.votes.get(who) {
            Some(rec) => {
                position = Some((bytes_clone(&rec.proposal_id), rec.net_votes));
            },
            None => {},
        }
        match position {
            Some((pid, n)) => {
                proof {
                    assert((n as int) * (n as int) <= 100);
                    assert(-10 <= n as int <= 10) by (nonlinear_arith)
                        requires
                            (n as int) * (n as int) <= 100,
                    ;
                }
                // the position's proposal provably exists, so the
                // adjustment cannot be refused
                if let Err(e) = self.proposals.adjust_tally(&pid, -n) {
                    return Err(e);
                }
                self.votes.remove(who);
            },
            None => {},
        }
        self.voters.remove(who);
        let _ = ledger.release(who, RESERVATION_FEE);
        self.events.push(Event::UserUnregistered(who));
        proof {
            assert(self@ =~= unregistered(old(self)@, who));
            assert(self.events_log() =~= old(self).events_log().push(
                EventView::UserUnregistered { who },
            ));
            lemma_unregister_preserves_inv(old(self)@, who);
        }
        Ok(())
    }

    /// Casts a vote: the new net position is the old one on this very
    /// proposal plus the delta, its quadratic cost must fit the
    /// budget, credit becomes budget less cost, a zero position is
    /// dropped, and the proposal's tally moves by the delta.  The
    /// proposal must exist and the voter be registered; any refusal
    /// changes nothing.  A live position on a different proposal is
    /// replaced without reversing that proposal's tally.
    pub fn vote(&mut self, voter: u64, num_votes: i64, proposal: Vec<u8>) -> (r: Result<(), Error>)
        requires
            old(self).wf(),
            vote_tally_fits(old(self)@, voter, proposal@, num_votes as int),
        ensures
            final(self).wf(),
            r == vote_outcome(old(self)@, voter, proposal@, num_votes as int),
            r is Ok ==> final(self)@ == vote_applied(
                old(self)@,
                voter,
                proposal@,
                num_votes as int,
            ) && final(self).events_log() == old(self).events_log().push(
                EventView::VoteDeposited {
                    who: voter,
                    proposal: proposal@,
                    delta: num_votes as int,
                },
            ),
            r is Err ==> final(self)@ == old(self)@ && final(self).events_log() == old(
                self,
            ).events_log(),
    {
        if !self.proposals.contains(&proposal) {
            return Err(Error::InvalidProposal);
        }
        if !self.voters.contains(voter) {
            return Err(Error::NotRegistered);
        }
        let mut prev: i64 = 0;
        match self.votes.get(voter) {
            Some(rec) => {
                if bytes_eq(&rec.proposal_id, &proposal) {
                    prev = rec.net_votes;
                }
            },
            None => {},
        }
        proof {
            assert(prev as int == previous_net(old(self)@, voter, proposal@));
            assert(-10 <= prev as int <= 10) by (nonlinear_arith)
                requires
                    (prev as int) * (prev as int) <= 100 || prev as int == 0,
                ;
        }
        if num_votes > 20 || num_votes < -20 {
            proof {
                assert((prev as int + num_votes as int) * (prev as int + num_votes as int) > 100)
                    by (nonlinear_arith)
                    requires
                        -10 <= prev as int <= 10,
                        (num_votes as int) > 20 || (num_votes as int) < -20,
                ;
            }
            return Err(Error::NotEnoughCredits);
        }
        let new_net: i64 = prev + num_votes;
        proof {
            assert(0 <= (new_net as int) * (new_net as int) <= 900) by (nonlinear_arith)
                requires
                    -30 <= new_net as int <= 30,
            ;
        }
        let cost: i64 = new_net * new_net;
        if cost > INITIAL_CREDITS as i64 {
            return Err(Error::NotEnoughCredits);
        }
        let credit: u64 = (INITIAL_CREDITS as i64 - cost) as u64;
        self.voters.insert(voter, credit);
        if new_net == 0 {
            self.votes.remove(voter);
        } else {
            self.votes.upsert(
                voter,
                VoteRecord { proposal_id: bytes_clone(&proposal), net_votes: new_net },
            );
        }
        // the proposal's existence was checked first, so the
        // adjustment cannot be refused
        if let Err(e) = self.proposals.adjust_tally(&proposal, num_votes) {
            return Err(e);
        }
        self.events.push(Event::VoteDeposited(voter, proposal, num_votes));
        proof {
            assert(self@ =~= vote_applied(old(self)@, voter, proposal@, num_votes as int));
            assert(self.events_log() =~= old(self).events_log().push(
                EventView::VoteDeposited {
                    who: voter,
                    proposal: proposal@,
                    delta: num_votes as int,
                },
            ));
            lemma_vote_preserves_inv(old(self)@, voter, proposal@, num_votes as int);
        }
        Ok(())
    }

    /// Whether the identifier names a stored proposal.
    pub fn proposal_exists(&self, id: &Vec<u8>) -> (r: bool)
        requires
            self.wf(),
        ensures
            r == self@.proposals.contains_key(id@),
    {
        self.proposals.contains(id)
    }

    /// The stored proposal record under the identifier, if any.
    pub fn get_proposal(&self, id: &Vec<u8>) -> (r: Option<Proposal>)
        requires
            self.wf(),
        ensures
            r is Some <==> self@.proposals.contains_key(id@),
            r matches Some(p) ==> self@.proposals[id@] == p@,
    {
        self.proposals.get(id)
    }

    /// The account's remaining credit, if it is registered.
    pub fn credit_of(&self, who: u64) -> (r: Option<u64>)
        requires
            self.wf(),
        ensures
            r is Some <==> self@.voters.contains_key(who),
            r matches Some(c) ==> self@.voters[who] == c as int,
    {
        self.voters.get(who)
    }

    /// The account's live position, if any.
    pub fn vote_of(&self, who: u64) -> (r: Option<&VoteRecord>)
        requires
            self.wf(),
        ensures
            r is Some <==> self@.votes.contains_key(who),
            r matches Some(rec) ==> self@.votes[who] == rec@,
    {
        self.votes.get(who)
    }
}

} // verus!
