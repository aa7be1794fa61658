//! Stake-weighted governance: a membership and staking program, the
//! proposal and voting program it administers, and the rules both rest on,
//! each stated over plain mathematical models and proved against them.

pub mod balances;
pub mod effect;
pub mod governance;
pub mod identity;
pub mod laws;
pub mod lottery;
pub mod marketplace;
pub mod participant;
pub mod payment_splitter;
pub mod raffle;
pub mod random;
pub mod simple_voting;
pub mod sorted;
pub mod sum;
pub mod utils;
pub mod voters;
pub mod voting;
pub mod voting_contract;
pub mod wide;
