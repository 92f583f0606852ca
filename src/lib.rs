//! An in-process client ledger: accounts with decimal balances, credit and
//! debit transactions, and dated, sequentially numbered balance snapshots.

pub mod amount;
pub mod model;
pub mod response;
pub mod ledger;
pub mod storage;
