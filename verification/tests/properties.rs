use quadratic_voting::model::Error;
use quadratic_voting::stores::ProposalStore;
use quadratic_voting::token::{Balance, BasicTokenLedger};
use quadratic_voting::voting::{Event, Pallet};

fn prop_a() -> Vec<u8> {
    b"raise the quorum".to_vec()
}

fn prop_b() -> Vec<u8> {
    b"lower the quorum".to_vec()
}

fn tally_of(voting: &Pallet, id: &Vec<u8>) -> i64 {
    voting.get_proposal(id).unwrap().tally
}

#[test]
fn empty_identifier_is_refused_without_effect() {
    let mut voting = Pallet::new();
    assert_eq!(voting.set_proposal(1, Vec::new()), Err(Error::EmptyProposalId));
    assert!(voting.events.is_empty());
    assert!(!voting.proposal_exists(&Vec::new()));
}

#[test]
fn nonempty_identifier_always_lands_with_zero_tally() {
    let mut voting = Pallet::new();
    assert!(voting.set_proposal(1, prop_a()).is_ok());
    let stored = voting.get_proposal(&prop_a()).unwrap();
    assert_eq!(stored.proposer, 1);
    assert!(stored.active);
    assert_eq!(stored.tally, 0);
}

#[test]
fn recreating_a_proposal_discards_its_tally_and_proposer() {
    let mut voting = Pallet::new();
    assert!(voting.set_proposal(1, prop_a()).is_ok());
    assert!(voting.apply_register(3, true).is_ok());
    assert!(voting.vote(3, 4, prop_a()).is_ok());
    assert_eq!(tally_of(&voting, &prop_a()), 4);
    assert!(voting.set_proposal(2, prop_a()).is_ok());
    let stored = voting.get_proposal(&prop_a()).unwrap();
    assert_eq!(stored.proposer, 2);
    assert_eq!(stored.tally, 0);
}

#[test]
fn registration_follows_the_reserve_outcome() {
    let mut voting = Pallet::new();
    let mut ledger = BasicTokenLedger::new();

    // nothing funded: the reserve fails and no credit is set
    assert_eq!(voting.register(&mut ledger, 1), Err(Error::InsufficientBalance));
    assert_eq!(voting.credit_of(1), None);

    // funded: the deposit moves into reserve and credit is the budget
    ledger.fund(1, 1500);
    assert!(voting.register(&mut ledger, 1).is_ok());
    assert_eq!(voting.credit_of(1), Some(100));
    assert_eq!(ledger.balance_of(1), Balance { free: 500, reserved: 1000 });
}

#[test]
fn reregistration_resets_credit_but_keeps_the_position() {
    let mut voting = Pallet::new();
    assert!(voting.set_proposal(1, prop_a()).is_ok());
    assert!(voting.apply_register(3, true).is_ok());
    assert!(voting.vote(3, 5, prop_a()).is_ok());
    assert_eq!(voting.credit_of(3), Some(75));
    assert!(voting.apply_register(3, true).is_ok());
    assert_eq!(voting.credit_of(3), Some(100));
    assert_eq!(voting.vote_of(3).unwrap().net_votes, 5);
}

#[test]
fn credit_tracks_the_square_of_the_running_sum() {
    let mut voting = Pallet::new();
    assert!(voting.set_proposal(1, prop_a()).is_ok());
    assert!(voting.apply_register(3, true).is_ok());
    assert!(voting.vote(3, 3, prop_a()).is_ok());
    assert_eq!(voting.credit_of(3), Some(100 - 9));
    assert!(voting.vote(3, -1, prop_a()).is_ok());
    assert_eq!(voting.credit_of(3), Some(100 - 4));
    assert!(voting.vote(3, 4, prop_a()).is_ok());
    assert_eq!(voting.credit_of(3), Some(100 - 36));
    assert_eq!(voting.vote_of(3).unwrap().net_votes, 6);
    assert!(voting.vote(3, -6, prop_a()).is_ok());
    assert_eq!(voting.credit_of(3), Some(100));
    assert!(voting.vote_of(3).is_none());
}

#[test]
fn eleven_votes_cost_too_much() {
    let mut voting = Pallet::new();
    assert!(voting.set_proposal(1, prop_a()).is_ok());
    assert!(voting.apply_register(3, true).is_ok());
    assert_eq!(voting.vote(3, 11, prop_a()), Err(Error::NotEnoughCredits));
    assert_eq!(voting.credit_of(3), Some(100));
    assert!(voting.vote_of(3).is_none());
}

#[test]
fn ten_then_one_fails_on_the_second_cast_only() {
    let mut voting = Pallet::new();
    assert!(voting.set_proposal(1, prop_a()).is_ok());
    assert!(voting.apply_register(3, true).is_ok());
    assert!(voting.vote(3, 10, prop_a()).is_ok());
    assert_eq!(voting.credit_of(3), Some(0));
    assert_eq!(voting.vote(3, 1, prop_a()), Err(Error::NotEnoughCredits));
    assert_eq!(voting.vote_of(3).unwrap().net_votes, 10);
    assert_eq!(voting.credit_of(3), Some(0));
    assert_eq!(tally_of(&voting, &prop_a()), 10);
}

#[test]
fn five_then_minus_five_returns_to_rest() {
    let mut voting = Pallet::new();
    assert!(voting.set_proposal(1, prop_a()).is_ok());
    assert!(voting.apply_register(3, true).is_ok());
    assert!(voting.vote(3, 5, prop_a()).is_ok());
    assert_eq!(tally_of(&voting, &prop_a()), 5);
    assert!(voting.vote(3, -5, prop_a()).is_ok());
    assert!(voting.vote_of(3).is_none());
    assert_eq!(voting.credit_of(3), Some(100));
    assert_eq!(tally_of(&voting, &prop_a()), 0);
}

#[test]
fn unregistering_reverses_the_live_position() {
    let mut voting = Pallet::new();
    let mut ledger = BasicTokenLedger::new();
    ledger.fund(3, 1000);
    assert!(voting.set_proposal(1, prop_a()).is_ok());
    assert!(voting.register(&mut ledger, 3).is_ok());
    assert!(voting.vote(3, 7, prop_a()).is_ok());
    assert_eq!(tally_of(&voting, &prop_a()), 7);
    assert!(voting.unregister(&mut ledger, 3).is_ok());
    assert_eq!(tally_of(&voting, &prop_a()), 0);
    assert_eq!(voting.credit_of(3), None);
    assert!(voting.vote_of(3).is_none());
    assert_eq!(ledger.balance_of(3), Balance { free: 1000, reserved: 0 });
}

#[test]
fn unregistration_survives_a_failed_refund() {
    let mut voting = Pallet::new();
    // registered past the ledger, so nothing is reserved to release
    let mut ledger = BasicTokenLedger::new();
    assert!(voting.apply_register(3, true).is_ok());
    assert!(voting.unregister(&mut ledger, 3).is_ok());
    assert_eq!(voting.credit_of(3), None);
}

#[test]
fn missing_proposal_outranks_registration_state() {
    let mut voting = Pallet::new();
    assert!(voting.apply_register(3, true).is_ok());
    assert_eq!(voting.vote(3, 1, prop_a()), Err(Error::InvalidProposal));
    assert_eq!(voting.vote(4, 1, prop_a()), Err(Error::InvalidProposal));
}

#[test]
fn unregistered_voter_is_refused_whatever_the_proposal() {
    let mut voting = Pallet::new();
    assert!(voting.set_proposal(1, prop_a()).is_ok());
    assert_eq!(voting.vote(3, 1, prop_a()), Err(Error::NotRegistered));
    assert_eq!(voting.vote(3, 1, prop_b()), Err(Error::InvalidProposal));
}

#[test]
fn moving_to_another_proposal_leaves_the_old_tally() {
    let mut voting = Pallet::new();
    assert!(voting.set_proposal(1, prop_a()).is_ok());
    assert!(voting.set_proposal(1, prop_b()).is_ok());
    assert!(voting.apply_register(3, true).is_ok());
    assert!(voting.vote(3, 5, prop_a()).is_ok());
    assert!(voting.vote(3, 3, prop_b()).is_ok());
    // the old proposal keeps the vote it can no longer attribute
    assert_eq!(tally_of(&voting, &prop_a()), 5);
    assert_eq!(tally_of(&voting, &prop_b()), 3);
    let rec = voting.vote_of(3).unwrap();
    assert_eq!(rec.proposal_id, prop_b());
    assert_eq!(rec.net_votes, 3);
    assert_eq!(voting.credit_of(3), Some(100 - 9));
}

#[test]
fn a_full_budget_position_is_allowed_either_way() {
    let mut voting = Pallet::new();
    assert!(voting.set_proposal(1, prop_a()).is_ok());
    assert!(voting.apply_register(3, true).is_ok());
    assert!(voting.apply_register(4, true).is_ok());
    assert!(voting.vote(3, 10, prop_a()).is_ok());
    assert!(voting.vote(4, -10, prop_a()).is_ok());
    assert_eq!(voting.credit_of(3), Some(0));
    assert_eq!(voting.credit_of(4), Some(0));
    assert_eq!(tally_of(&voting, &prop_a()), 0);
}

#[test]
fn a_zero_first_cast_leaves_no_position() {
    let mut voting = Pallet::new();
    assert!(voting.set_proposal(1, prop_a()).is_ok());
    assert!(voting.apply_register(3, true).is_ok());
    assert!(voting.vote(3, 0, prop_a()).is_ok());
    assert!(voting.vote_of(3).is_none());
    assert_eq!(voting.credit_of(3), Some(100));
    assert_eq!(tally_of(&voting, &prop_a()), 0);
}

#[test]
fn adjusting_an_absent_tally_is_an_invariant_violation() {
    let mut proposals = ProposalStore::new();
    assert_eq!(proposals.adjust_tally(&prop_a(), 1), Err(Error::InvariantViolation));
}

#[test]
fn events_record_the_successful_operations_in_order() {
    let mut voting = Pallet::new();
    let mut ledger = BasicTokenLedger::new();
    ledger.fund(3, 1000);
    assert!(voting.set_proposal(1, prop_a()).is_ok());
    assert_eq!(voting.set_proposal(1, Vec::new()), Err(Error::EmptyProposalId));
    assert!(voting.register(&mut ledger, 3).is_ok());
    assert!(voting.vote(3, 2, prop_a()).is_ok());
    assert!(voting.unregister(&mut ledger, 3).is_ok());
    assert_eq!(
        voting.events,
        vec![
            Event::ProposalAdded(1, prop_a()),
            Event::UserRegistered(3),
            Event::VoteDeposited(3, prop_a(), 2),
            Event::UserUnregistered(3),
        ]
    );
}

#[test]
fn token_reserve_and_release_move_exact_amounts() {
    let mut ledger = BasicTokenLedger::new();
    ledger.fund(8, 700);
    assert!(!ledger.do_reserve(8, 701));
    assert!(ledger.do_reserve(8, 700));
    assert_eq!(ledger.balance_of(8), Balance { free: 0, reserved: 700 });
    assert!(!ledger.do_release(8, 701));
    assert!(ledger.do_release(8, 300));
    assert_eq!(ledger.balance_of(8), Balance { free: 300, reserved: 400 });
    assert_eq!(ledger.balance_of(9), Balance { free: 0, reserved: 0 });
}
