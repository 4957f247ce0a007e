use quadratic_voting::model::Error;
use quadratic_voting::token::BasicTokenLedger;
use quadratic_voting::voting::Pallet;

#[test]
fn setting_new_proposal_works() {
    let proposal = String::from("This is a test proposal").into_bytes();
    let mut voting = Pallet::new();
    assert!(voting.set_proposal(1, proposal.clone()).is_ok());
    assert_eq!(voting.set_proposal(1, Vec::new()), Err(Error::EmptyProposalId));
}

#[test]
fn registering_user_works() {
    let mut voting = Pallet::new();
    let mut ledger = BasicTokenLedger::new();
    ledger.fund(1, 1000);
    assert!(voting.register(&mut ledger, 1).is_ok());
}

#[test]
fn unregistering_user_works() {
    let mut voting = Pallet::new();
    let mut ledger = BasicTokenLedger::new();
    assert_eq!(voting.unregister(&mut ledger, 1), Err(Error::NotRegistered));
}

#[test]
fn voting_works() {
    let num_votes: i64 = 1;
    let proposal = String::from("This is a test proposal").into_bytes();
    let mut voting = Pallet::new();
    assert_eq!(voting.vote(1, num_votes, proposal), Err(Error::InvalidProposal));
}
