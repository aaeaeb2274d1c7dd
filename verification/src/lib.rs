//! A fixed-topology warehouse: an addressable grid of storage slots with
//! stock-level mutation and capacity reporting, plus a small greedy
//! least-loaded-channel queue distributor.

pub mod codec;
pub mod ledger;
pub mod queue;
pub mod report;
pub mod sums;
