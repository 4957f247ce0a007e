//! A quadratic-cost voting ledger.
//!
//! Accounts register against a fixed credit budget, stake credits on
//! proposals at quadratic cost, change or retract their votes, and
//! unregister again.  The state machine keeps per-proposal tallies and
//! per-voter balances consistent at every step; the contracts in
//! [`voting`] and the lemmas in [`laws`] say exactly how.
//!
//! A sibling key-value identity registry lives in [`identity`].

pub mod bytes;
pub mod identity;
pub mod kvseq;
pub mod laws;
pub mod model;
pub mod stores;
pub mod token;
pub mod voting;
