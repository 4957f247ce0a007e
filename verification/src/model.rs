//! The abstract voting state and its transitions.
//!
//! A [`StateView`] holds the mathematical content of the three persistent
//! tables: proposals, registered voters and live vote positions.  Each
//! operation of the state machine is described here twice, by the result
//! it returns ([`vote_outcome`] and friends) and by the state it moves to
//! ([`vote_applied`] and friends).  The executable operations in
//! [`crate::voting`] promise to agree with these functions exactly.

use vstd::prelude::*;

verus! {

/// The fixed credit budget every voter starts with.
pub const INITIAL_CREDITS: u64 = 100;

/// What an operation can fail with.  All variants but
/// `InvariantViolation` are ordinary, recoverable answers;
/// `InvariantViolation` reports a store whose promised shape was broken
/// by an outside writer.
#[derive(Clone, Copy, Debug, PartialEq, Eq, Structural)]
pub enum Error {
    /// A proposal identifier must hold at least one byte.
    EmptyProposalId,
    /// The named proposal is not in the proposal store.
    InvalidProposal,
    /// The acting account is not a registered voter.
    NotRegistered,
    /// The new net position would cost more than the credit budget.
    NotEnoughCredits,
    /// The token ledger refused to reserve the registration deposit.
    InsufficientBalance,
    /// A record that an earlier check proved present was missing.
    InvariantViolation,
}

/// A proposal as the abstract state sees it.
#[verifier::ext_equal]
pub struct ProposalView {
    /// The account that created the proposal.
    pub proposer: u64,
    /// Set when the proposal is open for votes; nothing closes one.
    pub active: bool,
    /// The signed sum of all deltas ever cast against this proposal,
    /// less the positions reversed by unregistration.
    pub tally: int,
}

/// A voter's single live position.
#[verifier::ext_equal]
pub struct VoteView {
    /// The proposal the position is staked on.
    pub proposal: Seq<u8>,
    /// The signed cumulative stake.
    pub net: int,
}

/// The whole abstract state.
#[verifier::ext_equal]
pub struct StateView {
    /// Proposal identifier to proposal record.
    pub proposals: Map<Seq<u8>, ProposalView>,
    /// Account to remaining credit.
    pub voters: Map<u64, int>,
    /// Account to its single live position, absent when the net stake
    /// is zero.
    pub votes: Map<u64, VoteView>,
}

/// The state with nothing in it.
pub open spec fn empty_state() -> StateView {
    StateView { proposals: Map::empty(), voters: Map::empty(), votes: Map::empty() }
}

/// What creating a proposal answers: only an empty identifier is
/// refused, an existing one is silently overwritten.
pub open spec fn create_outcome(id: Seq<u8>) -> Result<(), Error> {
    if id.len() == 0 {
        Err(Error::EmptyProposalId)
    } else {
        Ok(())
    }
}

/// The state after a proposal is created: a fresh record with a zero
/// tally under the given identifier, whatever stood there before.
pub open spec fn proposal_created(s: StateView, proposer: u64, id: Seq<u8>) -> StateView {
    StateView {
        proposals: s.proposals.insert(id, ProposalView { proposer, active: true, tally: 0 }),
        ..s
    }
}

/// The state after an account registers: its credit is the full budget,
/// whatever it was before; any live position is left as it stood.
pub open spec fn registered(s: StateView, who: u64) -> StateView {
    StateView { voters: s.voters.insert(who, INITIAL_CREDITS as int), ..s }
}

/// What unregistering answers.
pub open spec fn unregister_outcome(s: StateView, who: u64) -> Result<(), Error> {
    if s.voters.contains_key(who) {
        Ok(())
    } else {
        Err(Error::NotRegistered)
    }
}

/// The state after a registered account unregisters: its voter record
/// goes, and a live position is reversed out of its proposal's tally
/// and removed.
pub open spec fn unregistered(s: StateView, who: u64) -> StateView {
    if s.votes.contains_key(who) {
        let pos = s.votes[who];
        let p = s.proposals[pos.proposal];
        StateView {
            proposals: s.proposals.insert(
                pos.proposal,
                ProposalView { tally: p.tally - pos.net, ..p },
            ),
            voters: s.voters.remove(who),
            votes: s.votes.remove(who),
        }
    } else {
        StateView { voters: s.voters.remove(who), ..s }
    }
}

/// The net stake the voter already holds on this proposal: the live
/// position's net when it references the same proposal, zero otherwise.
/// A position on a different proposal counts for nothing here; casting
/// replaces it without reversing the other tally.
pub open spec fn previous_net(s: StateView, voter: u64, id: Seq<u8>) -> int {
    if s.votes.contains_key(voter) && s.votes[voter].proposal == id {
        s.votes[voter].net
    } else {
        0
    }
}

/// What casting a vote answers, checked in this order: the proposal
/// must exist, the voter must be registered, and the new net position
/// must cost at most the credit budget.
pub open spec fn vote_outcome(s: StateView, voter: u64, id: Seq<u8>, delta: int) -> Result<
    (),
    Error,
> {
    let n = previous_net(s, voter, id) + delta;
    if !s.proposals.contains_key(id) {
        Err(Error::InvalidProposal)
    } else if !s.voters.contains_key(voter) {
        Err(Error::NotRegistered)
    } else if n * n > INITIAL_CREDITS as int {
        Err(Error::NotEnoughCredits)
    } else {
        Ok(())
    }
}

/// The state after a successful cast: credit becomes the budget less
/// the quadratic cost of the new net position, the position is removed
/// at net zero and upserted otherwise, and the proposal's tally moves
/// by the delta alone.
pub open spec fn vote_applied(s: StateView, voter: u64, id: Seq<u8>, delta: int) -> StateView {
    let n = previous_net(s, voter, id) + delta;
    let p = s.proposals[id];
    StateView {
        proposals: s.proposals.insert(id, ProposalView { tally: p.tally + delta, ..p }),
        voters: s.voters.insert(voter, INITIAL_CREDITS as int - n * n),
        votes: if n == 0 {
            s.votes.remove(voter)
        } else {
            s.votes.insert(voter, VoteView { proposal: id, net: n })
        },
    }
}

/// What every reachable state satisfies.
///
/// Only finitely many live positions exist.  A live position is
/// nonzero, affordable, references a proposal that exists, and
/// belongs to a registered voter.  A registered voter's
/// credit is the budget less the quadratic cost of its live position;
/// the one exception is the full budget right after re-registration,
/// which resets credit without touching the position.
pub open spec fn state_inv(s: StateView) -> bool {
    &&& s.votes.dom().finite()
    &&& forall|v: u64| #[trigger]
        s.votes.contains_key(v) ==> {
            let pos = s.votes[v];
            &&& pos.net != 0
            &&& pos.net * pos.net <= INITIAL_CREDITS as int
            &&& s.proposals.contains_key(pos.proposal)
            &&& s.voters.contains_key(v)
        }
    &&& forall|v: u64| #[trigger]
        s.voters.contains_key(v) ==> {
            if s.votes.contains_key(v) {
                ||| s.voters[v] == INITIAL_CREDITS as int - s.votes[v].net * s.votes[v].net
                ||| s.voters[v] == INITIAL_CREDITS as int
            } else {
                s.voters[v] == INITIAL_CREDITS as int
            }
        }
}

/// Creating a proposal keeps every reachable-state property: it only
/// grows the proposal table.
pub proof fn lemma_create_preserves_inv(s: StateView, proposer: u64, id: Seq<u8>)
    requires
        state_inv(s),
    ensures
        state_inv(proposal_created(s, proposer, id)),
{
    let t = proposal_created(s, proposer, id);
    assert forall|v: u64| #[trigger] t.votes.contains_key(v) implies {
        let pos = t.votes[v];
        &&& pos.net != 0
        &&& pos.net * pos.net <= INITIAL_CREDITS as int
        &&& t.proposals.contains_key(pos.proposal)
        &&& t.voters.contains_key(v)
    } by {
        assert(s.votes.contains_key(v));
    }
}

/// Registering keeps every reachable-state property: the account's
/// credit becomes the full budget, which a live position tolerates.
pub proof fn lemma_register_preserves_inv(s: StateView, who: u64)
    requires
        state_inv(s),
    ensures
        state_inv(registered(s, who)),
{
    let t = registered(s, who);
    assert forall|v: u64| #[trigger] t.votes.contains_key(v) implies {
        let pos = t.votes[v];
        &&& pos.net != 0
        &&& pos.net * pos.net <= INITIAL_CREDITS as int
        &&& t.proposals.contains_key(pos.proposal)
        &&& t.voters.contains_key(v)
    } by {
        assert(s.votes.contains_key(v));
    }
}

/// Unregistering keeps every reachable-state property: the account's
/// records go, nobody else's change.
pub proof fn lemma_unregister_preserves_inv(s: StateView, who: u64)
    requires
        state_inv(s),
    ensures
        state_inv(unregistered(s, who)),
{
    let t = unregistered(s, who);
    assert forall|v: u64| #[trigger] t.votes.contains_key(v) implies {
        let pos = t.votes[v];
        &&& pos.net != 0
        &&& pos.net * pos.net <= INITIAL_CREDITS as int
        &&& t.proposals.contains_key(pos.proposal)
        &&& t.voters.contains_key(v)
    } by {
        assert(s.votes.contains_key(v));
        assert(t.votes[v] == s.votes[v]);
    }
    assert forall|v: u64| #[trigger] t.voters.contains_key(v) implies {
        if t.votes.contains_key(v) {
            ||| t.voters[v] == INITIAL_CREDITS as int - t.votes[v].net * t.votes[v].net
            ||| t.voters[v] == INITIAL_CREDITS as int
        } else {
            t.voters[v] == INITIAL_CREDITS as int
        }
    } by {
        assert(s.voters.contains_key(v));
    }
}

/// An accepted cast keeps every reachable-state property: the caster's
/// new position is nonzero and affordable wherever one is written, and
/// its credit is exactly the budget less that position's cost.
pub proof fn lemma_vote_preserves_inv(s: StateView, voter: u64, id: Seq<u8>, delta: int)
    requires
        state_inv(s),
        vote_outcome(s, voter, id, delta) is Ok,
    ensures
        state_inv(vote_applied(s, voter, id, delta)),
{
    let t = vote_applied(s, voter, id, delta);
    assert forall|v: u64| #[trigger] t.votes.contains_key(v) implies {
        let pos = t.votes[v];
        &&& pos.net != 0
        &&& pos.net * pos.net <= INITIAL_CREDITS as int
        &&& t.proposals.contains_key(pos.proposal)
        &&& t.voters.contains_key(v)
    } by {
        if v != voter {
            assert(s.votes.contains_key(v));
            assert(t.votes[v] == s.votes[v]);
        }
    }
    assert forall|v: u64| #[trigger] t.voters.contains_key(v) implies {
        if t.votes.contains_key(v) {
            ||| t.voters[v] == INITIAL_CREDITS as int - t.votes[v].net * t.votes[v].net
            ||| t.voters[v] == INITIAL_CREDITS as int
        } else {
            t.voters[v] == INITIAL_CREDITS as int
        }
    } by {
        if v != voter {
            assert(s.voters.contains_key(v));
        }
    }
}

/// The machine limit on a cast: when the cast would be accepted, the
/// proposal's new tally must still fit the stored integer width.
pub open spec fn vote_tally_fits(s: StateView, voter: u64, id: Seq<u8>, delta: int) -> bool {
    vote_outcome(s, voter, id, delta) is Ok ==> i64::MIN <= s.proposals[id].tally + delta
        <= i64::MAX
}

/// The machine limit on unregistering: reversing the live position must
/// leave a tally that still fits the stored integer width.
pub open spec fn unregister_tally_fits(s: StateView, who: u64) -> bool {
    s.votes.contains_key(who) ==> i64::MIN <= s.proposals[s.votes[who].proposal].tally
        - s.votes[who].net <= i64::MAX
}

} // verus!
