//! Vote-escrow ledger: locking curve, vote tallies and the reward ledger.

pub mod account;
pub mod actions;
pub mod contract;
pub mod errors;
pub mod locking;
pub mod math;
pub mod proposals;
pub mod proposals_action;
pub mod reconcile;
pub mod str_map;
pub mod voting;
