//! Laws of the voting machine that span more than one operation,
//! stated over the abstract model and proved once and for all.

use vstd::prelude::*;

use crate::model::{
    empty_state, lemma_vote_preserves_inv, previous_net, proposal_created, registered, state_inv,
    unregistered, vote_applied, vote_outcome, StateView, VoteView, INITIAL_CREDITS,
};
use vstd::set::fold::{is_fun_commutative, lemma_fold_empty, lemma_fold_insert};

verus! {

/// The accumulator that sums `g` over a set of accounts.
pub open spec fn summand(g: spec_fn(u64) -> int) -> spec_fn(int, u64) -> int {
    |acc: int, v: u64| acc + g(v)
}

/// The sum of `g` over the accounts in `d`.
pub open spec fn sum_over(d: Set<u64>, g: spec_fn(u64) -> int) -> int {
    d.fold(0, summand(g))
}

/// Adding a fresh account to the set adds its summand.
pub proof fn lemma_sum_insert(d: Set<u64>, g: spec_fn(u64) -> int, a: u64)
    requires
        d.finite(),
        !d.contains(a),
    ensures
        sum_over(d.insert(a), g) == sum_over(d, g) + g(a),
{
    assert(is_fun_commutative(summand(g)));
    lemma_fold_insert(d, 0, summand(g), a);
}

/// Taking an account out of the set takes its summand away.
pub proof fn lemma_sum_remove(d: Set<u64>, g: spec_fn(u64) -> int, a: u64)
    requires
        d.finite(),
        d.contains(a),
    ensures
        sum_over(d, g) == sum_over(d.remove(a), g) + g(a),
{
    lemma_sum_insert(d.remove(a), g, a);
    assert(d.remove(a).insert(a) =~= d);
}

/// Two summand functions that agree on the set give the same sum.
pub proof fn lemma_sum_congruence(d: Set<u64>, g1: spec_fn(u64) -> int, g2: spec_fn(u64) -> int)
    requires
        d.finite(),
        forall|a: u64| d.contains(a) ==> g1(a) == g2(a),
    ensures
        sum_over(d, g1) == sum_over(d, g2),
    decreases d.len(),
{
    if d.len() == 0 {
        d.lemma_len0_is_empty();
        assert(d =~= Set::<u64>::empty());
        lemma_fold_empty(0, summand(g1));
        lemma_fold_empty(0, summand(g2));
    } else {
        let a = d.choose();
        assert(d.contains(a));
        lemma_sum_remove(d, g1, a);
        lemma_sum_remove(d, g2, a);
        lemma_sum_congruence(d.remove(a), g1, g2);
    }
}

/// The net stake, account by account, that the state's vote ledger
/// records.
pub open spec fn net_in(s: StateView) -> spec_fn(u64) -> int {
    |v: u64| s.votes[v].net
}

/// The accounts whose live position references the proposal.
pub open spec fn holders_of(s: StateView, id: Seq<u8>) -> Set<u64> {
    s.votes.dom().filter(|v: u64| s.votes[v].proposal == id)
}

/// The sum of the live net positions referencing the proposal.
pub open spec fn position_sum(s: StateView, id: Seq<u8>) -> int {
    sum_over(holders_of(s, id), net_in(s))
}

/// The cross-store consistency the tallies aim at: every stored
/// proposal's tally is the sum of the live positions referencing it.
/// Two documented behaviours break it deliberately - overwriting a
/// proposal that live positions still reference, and casting toward a
/// new proposal while a position on another is live - so the lemmas
/// below promise preservation exactly away from those paths.
pub open spec fn tally_consistent(s: StateView) -> bool {
    forall|id: Seq<u8>| #[trigger]
        s.proposals.contains_key(id) ==> s.proposals[id].tally == position_sum(s, id)
}

/// The empty state holds no proposal, so it is trivially consistent.
pub proof fn lemma_empty_state_consistent()
    ensures
        tally_consistent(empty_state()),
{
}

/// Registering touches no position and no tally, so consistency
/// survives any registration.
pub proof fn lemma_register_keeps_consistency(s: StateView, who: u64)
    requires
        state_inv(s),
        tally_consistent(s),
    ensures
        tally_consistent(registered(s, who)),
{
    let t = registered(s, who);
    assert forall|id: Seq<u8>| #[trigger] t.proposals.contains_key(id) implies t.proposals[id].tally
        == position_sum(t, id) by {
        assert(holders_of(t, id) =~= holders_of(s, id));
        lemma_sum_congruence(holders_of(s, id), net_in(t), net_in(s));
    }
}

/// Creating a proposal that no live position references keeps
/// consistency: the fresh record's zero tally matches an empty holder
/// set, and every other proposal keeps its holders.  An overwrite of a
/// proposal with live positions is the documented exception and is
/// excluded here.
pub proof fn lemma_create_keeps_consistency(s: StateView, proposer: u64, id: Seq<u8>)
    requires
        state_inv(s),
        tally_consistent(s),
        forall|v: u64| #[trigger] s.votes.contains_key(v) ==> s.votes[v].proposal != id,
    ensures
        tally_consistent(proposal_created(s, proposer, id)),
{
    let t = proposal_created(s, proposer, id);
    assert forall|q: Seq<u8>| #[trigger] t.proposals.contains_key(q) implies t.proposals[q].tally
        == position_sum(t, q) by {
        if q == id {
            assert(holders_of(t, id) =~= Set::<u64>::empty());
            lemma_fold_empty(0, summand(net_in(t)));
        } else {
            assert(s.proposals.contains_key(q));
            assert(holders_of(t, q) =~= holders_of(s, q));
            lemma_sum_congruence(holders_of(s, q), net_in(t), net_in(s));
        }
    }
}

/// Unregistering keeps consistency unconditionally: a live position
/// leaves its proposal's holders in the same breath as its net is
/// subtracted from that proposal's tally, and no other proposal's
/// holders change.
pub proof fn lemma_unregister_keeps_consistency(s: StateView, who: u64)
    requires
        state_inv(s),
        tally_consistent(s),
    ensures
        tally_consistent(unregistered(s, who)),
{
    let t = unregistered(s, who);
    if s.votes.contains_key(who) {
        let pos = s.votes[who];
        assert forall|q: Seq<u8>| #[trigger] t.proposals.contains_key(q) implies t.proposals[q].tally
            == position_sum(t, q) by {
            assert(s.proposals.contains_key(q));
            if q == pos.proposal {
                assert(holders_of(s, q).contains(who));
                assert(holders_of(t, q) =~= holders_of(s, q).remove(who));
                lemma_sum_remove(holders_of(s, q), net_in(s), who);
                lemma_sum_congruence(holders_of(s, q).remove(who), net_in(t), net_in(s));
            } else {
                assert(holders_of(t, q) =~= holders_of(s, q));
                lemma_sum_congruence(holders_of(s, q), net_in(t), net_in(s));
            }
        }
    } else {
        assert forall|q: Seq<u8>| #[trigger] t.proposals.contains_key(q) implies t.proposals[q].tally
            == position_sum(t, q) by {
            assert(s.proposals.contains_key(q));
            assert(holders_of(t, q) =~= holders_of(s, q));
            lemma_sum_congruence(holders_of(s, q), net_in(t), net_in(s));
        }
    }
}

/// An accepted cast that stays on the caller's own proposal keeps
/// consistency: that proposal's holders change by exactly the caster's
/// position while its tally moves by the delta, and every other
/// proposal keeps its holders.  Casting toward a new proposal while a
/// position on another is live is the documented exception and is
/// excluded here.
pub proof fn lemma_vote_keeps_consistency(s: StateView, voter: u64, id: Seq<u8>, delta: int)
    requires
        state_inv(s),
        tally_consistent(s),
        vote_outcome(s, voter, id, delta) is Ok,
        s.votes.contains_key(voter) ==> s.votes[voter].proposal == id,
    ensures
        tally_consistent(vote_applied(s, voter, id, delta)),
{
    let t = vote_applied(s, voter, id, delta);
    let prev = previous_net(s, voter, id);
    let n = prev + delta;
    assert forall|q: Seq<u8>| #[trigger] t.proposals.contains_key(q) implies t.proposals[q].tally
        == position_sum(t, q) by {
        assert(s.proposals.contains_key(q));
        if q == id {
            if s.votes.contains_key(voter) {
                assert(holders_of(s, id).contains(voter));
                lemma_sum_remove(holders_of(s, id), net_in(s), voter);
                if n == 0 {
                    assert(holders_of(t, id) =~= holders_of(s, id).remove(voter));
                    lemma_sum_congruence(holders_of(s, id).remove(voter), net_in(t), net_in(s));
                } else {
                    assert(holders_of(t, id) =~= holders_of(s, id).remove(voter).insert(voter));
                    lemma_sum_insert(holders_of(s, id).remove(voter), net_in(t), voter);
                    lemma_sum_congruence(holders_of(s, id).remove(voter), net_in(t), net_in(s));
                }
            } else {
                assert(!holders_of(s, id).contains(voter));
                if n == 0 {
                    assert(holders_of(t, id) =~= holders_of(s, id));
                    lemma_sum_congruence(holders_of(s, id), net_in(t), net_in(s));
                } else {
                    assert(holders_of(t, id) =~= holders_of(s, id).insert(voter));
                    lemma_sum_insert(holders_of(s, id), net_in(t), voter);
                    lemma_sum_congruence(holders_of(s, id), net_in(t), net_in(s));
                }
            }
        } else {
            assert(holders_of(t, q) =~= holders_of(s, q));
            lemma_sum_congruence(holders_of(s, q), net_in(t), net_in(s));
        }
    }
}

/// The net position left behind by a sequence of attempted casts
/// against one proposal, starting from none: each delta lands when the
/// new position stays affordable and is dropped otherwise.
pub open spec fn accepted_net(deltas: Seq<int>) -> int
    decreases deltas.len(),
{
    if deltas.len() == 0 {
        0
    } else {
        let n = accepted_net(deltas.drop_last());
        let m = n + deltas.last();
        if m * m <= INITIAL_CREDITS as int {
            m
        } else {
            n
        }
    }
}

/// The signed sum of a sequence of deltas.
pub open spec fn delta_sum(deltas: Seq<int>) -> int
    decreases deltas.len(),
{
    if deltas.len() == 0 {
        0
    } else {
        delta_sum(deltas.drop_last()) + deltas.last()
    }
}

/// The state after a sequence of casts by one voter against one
/// proposal, a refused cast changing nothing.
pub open spec fn casts_applied(s: StateView, voter: u64, id: Seq<u8>, deltas: Seq<int>) -> StateView
    decreases deltas.len(),
{
    if deltas.len() == 0 {
        s
    } else {
        let t = casts_applied(s, voter, id, deltas.drop_last());
        if vote_outcome(t, voter, id, deltas.last()) is Ok {
            vote_applied(t, voter, id, deltas.last())
        } else {
            t
        }
    }
}

/// After any sequence of casts by one voter against one proposal,
/// starting registered with no live position, the voter's state is a
/// function of the running net `S` of the accepted deltas alone: with
/// `S != 0` the ledger holds exactly the position `S` on that proposal
/// and credit is the budget less `S * S`; with `S == 0` the ledger
/// holds no position and credit is the full budget.
pub proof fn lemma_cast_sequence(s: StateView, voter: u64, id: Seq<u8>, deltas: Seq<int>)
    requires
        state_inv(s),
        s.proposals.contains_key(id),
        s.voters.contains_key(voter),
        !s.votes.contains_key(voter),
    ensures
        state_inv(casts_applied(s, voter, id, deltas)),
        casts_applied(s, voter, id, deltas).proposals.contains_key(id),
        casts_applied(s, voter, id, deltas).voters.contains_key(voter),
        accepted_net(deltas) != 0 ==> casts_applied(s, voter, id, deltas).votes.contains_key(voter)
            && casts_applied(s, voter, id, deltas).votes[voter] == (VoteView {
            proposal: id,
            net: accepted_net(deltas),
        }) && casts_applied(s, voter, id, deltas).voters[voter] == INITIAL_CREDITS as int
            - accepted_net(deltas) * accepted_net(deltas),
        accepted_net(deltas) == 0 ==> !casts_applied(s, voter, id, deltas).votes.contains_key(voter)
            && casts_applied(s, voter, id, deltas).voters[voter] == INITIAL_CREDITS as int,
    decreases deltas.len(),
{
    if deltas.len() > 0 {
        lemma_cast_sequence(s, voter, id, deltas.drop_last());
        let t = casts_applied(s, voter, id, deltas.drop_last());
        let d = deltas.last();
        let n = accepted_net(deltas.drop_last());
        assert(previous_net(t, voter, id) == n);
        if vote_outcome(t, voter, id, d) is Ok {
            lemma_vote_preserves_inv(t, voter, id, d);
        }
    }
}

/// When every prefix of the sequence keeps its running sum affordable,
/// no cast is refused and the net position is the plain sum of the
/// deltas.
pub proof fn lemma_accepted_net_when_affordable(deltas: Seq<int>)
    requires
        forall|i: int|
            0 < i <= deltas.len() ==> delta_sum(#[trigger] deltas.subrange(0, i)) * delta_sum(
                deltas.subrange(0, i),
            ) <= INITIAL_CREDITS as int,
    ensures
        accepted_net(deltas) == delta_sum(deltas),
    decreases deltas.len(),
{
    if deltas.len() > 0 {
        assert forall|i: int| 0 < i <= deltas.drop_last().len() implies delta_sum(
            #[trigger] deltas.drop_last().subrange(0, i),
        ) * delta_sum(deltas.drop_last().subrange(0, i)) <= INITIAL_CREDITS as int by {
            assert(deltas.drop_last().subrange(0, i) =~= deltas.subrange(0, i));
        }
        lemma_accepted_net_when_affordable(deltas.drop_last());
        assert(deltas.subrange(0, deltas.len() as int) =~= deltas);
    }
}

} // verus!
