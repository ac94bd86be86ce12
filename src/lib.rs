//! A weighted linear-vesting ledger: a token pool accrues to a set of
//! weighted shareholders in proportion to their weight and to the time
//! elapsed since each one last settled.

pub mod accrual;
pub mod contract;
pub mod error;
pub mod laws;
pub mod msg;
pub mod query;
pub mod registry;
pub mod schedule;
pub mod state;
