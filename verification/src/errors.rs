//! The failure taxonomy of the ledger.
//!
//! Every failure is fatal to the enclosing request: an operation that
//! returns one of these errors leaves the ledger exactly as it found it.

use vstd::prelude::*;

verus! {

/// Why a deposit or withdrawal request was refused.
#[derive(Clone, Copy, Debug, PartialEq, Eq, Structural)]
pub enum LedgerError {
    /// No record exists for the account; registration must come first.
    AccountNotRegistered,
    /// The native balance cannot cover the requested amount and still
    /// fund the record's storage.
    InsufficientNativeBalance,
    /// The recorded balance of the asset is absent or below the
    /// requested amount.
    InsufficientAssetBalance,
    /// The native balance does not cover the storage cost of the record.
    StorageUnderfunded,
}

} // verus!
