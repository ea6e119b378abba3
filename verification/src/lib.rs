//! Reconciliation engine for a declared set of on-chain resources (a "world")
//! against its live deployed state: it plans the minimal ordered sequence of
//! declare / register / upgrade / grant / initialize operations and models
//! the two execution strategies (one atomic multicall, or one transaction per
//! call in order) together with their partial-failure semantics.

pub mod call;
pub mod chain;
pub mod declarer;
pub mod deployer;
pub mod diff;
pub mod permissions;
pub mod error;
pub mod felt;
pub mod invoker;
pub mod migrate;
