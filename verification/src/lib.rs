//! Read-side client core for a permissioned ledger maintained by a fixed set
//! of validator nodes: validator registry, pool configuration, request
//! dispatch and Byzantine-quorum consensus over node responses.

pub mod config;
pub mod consensus;
pub mod errors;
pub mod genesis;
pub mod networker;
pub mod pool;
pub mod pool_factory;
pub mod registry;
pub mod requests;
pub mod shared;
