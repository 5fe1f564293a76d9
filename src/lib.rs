//! An auction ledger for handing over accounts: an account is offered with a
//! deposit, others bet on it at escalating prices (each bet paying commission
//! and decayed rewards to earlier bettors), the top bettor claims it, and once
//! the claim has aged past the acquisition window the bid is finalized and the
//! claimant may acquire the account.
use vstd::prelude::*;

pub mod bid;
pub mod contract;
pub mod leaderboard;
pub mod pricing;
pub mod profile;

verus! {

} // verus!
