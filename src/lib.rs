//! A time-locked two-party escrow over a ledger of holding accounts, and a
//! small storage container generic over its byte encoding.

pub mod accounts;
pub mod escrow;
pub mod laws;
pub mod storage;
pub mod sums;

pub use accounts::HoldingAccount;
pub use escrow::{
    derive_address, is_unlocked, EscrowAddress, EscrowEntry, EscrowError, EscrowRecord, Ledger,
    Vault, LOCK_DURATION, NATIVE, RECORD_DEPOSIT, STORAGE_DEPOSIT, VAULT_DEPOSIT,
};
pub use storage::{Serializer, Storage};
