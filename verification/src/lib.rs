//! A staking and reward-distribution ledger.
//!
//! Holders deposit a stakable cw20 token, the contract keeps track of every
//! holder's stake, and rewards paid in the incentive denomination are split
//! between the holders in proportion to their stake.

pub mod contract;
pub mod error;
pub mod executions;
pub mod laws;
pub mod ledger;
pub mod msg;
pub mod queries;
pub mod state;
pub mod utils;
