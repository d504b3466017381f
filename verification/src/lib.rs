//! A batch ledger replay engine: events (deposits, withdrawals, disputes,
//! resolves, chargebacks) are applied one by one to per-account balance
//! state machines, tolerating per-event failures without aborting the batch.

pub mod amount;
pub mod balance;
pub mod state;
pub mod transaction;

pub use amount::Amount;
