//! A multi-asset custodial deposit ledger.
//!
//! The ledger keeps, per registered account, a balance of the native
//! currency and a table of external asset balances, and enforces that the
//! native balance always covers the storage cost of holding the record.
//! Deposits and withdrawals mutate a record loaded from the store and write
//! it back only when every check passes; withdrawals additionally describe
//! the outbound transfer that the surrounding host is to dispatch.

pub mod assoc;
pub mod constants;
pub mod deposit;
pub mod errors;
pub mod laws;
pub mod token;
