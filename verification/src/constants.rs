//! Constants of the ledger's registration and denomination rules.

use vstd::prelude::*;

verus! {

/// Minimum storage units consumed by a freshly registered account:
/// 64 (account identifier bytes) + 2*8 (two 64-bit integers) + 4.
pub const INIT_ACCOUNT_STORAGE: u64 = 64 + 16 + 4;

/// One whole unit of the native currency, in its smallest denomination.
pub const NDENOM: u128 = 1_000_000_000_000_000_000_000_000;

/// Native amount set aside when registering with an asset collaborator.
pub const NEP21_STORAGE_DEPOSIT: u128 = 4 * NDENOM / 100;

} // verus!
