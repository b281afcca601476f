//! Replays a log of client transactions (deposits, withdrawals, disputes,
//! resolves and chargebacks) against per-client accounts with exact
//! fixed-point balances.

pub mod laws;
pub mod ledger;
pub mod money;

pub use ledger::{AccountState, Ledger, LedgerError, Transaction, TransactionKind};
pub use money::Money;
