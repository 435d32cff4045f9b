//! A poll and ballot tally engine: polls with a fixed list of options, one ballot per
//! voter and poll, and per-option counts that always equal the ballots behind them.

pub mod assoc;
pub mod ballot_ledger;
pub mod contract;
pub mod error;
pub mod msg;
pub mod order;
pub mod poll_store;
pub mod state;
pub mod tally;
