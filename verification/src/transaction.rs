//! Ledger events and their kinds.

use vstd::prelude::*;
use crate::amount::Amount;

verus! {

/// The kind of a ledger event; it dictates how the event is applied to an
/// account's balances.
#[derive(Clone, Copy, Debug, PartialEq, Eq, Structural)]
pub enum TransactionType {
    /// A credit to the client's account: increases the available and total
    /// funds.
    Deposit,
    /// A debit to the client's account: decreases the available and total
    /// funds.
    Withdrawal,
    /// A claim that a prior event was erroneous: its amount moves from the
    /// available funds to the held funds, the total stays the same.
    Dispute,
    /// A resolution of a dispute: the held amount moves back to the
    /// available funds, the total stays the same.
    Resolve,
    /// A terminal reversal of a disputed event: the amount leaves the
    /// available and total funds and the account is locked for good.
    Chargeback,
}

/// One immutable ledger event. `amount` is meaningful only for deposits and
/// withdrawals; for the other kinds, `tx` references a prior event and the
/// ingestion adapter supplies a zero amount.
#[derive(Clone, Copy, Debug, PartialEq, Eq, Structural)]
pub struct Transaction {
    /// The account this event belongs to.
    pub client: u16,
    /// The event's own id for deposits and withdrawals; the referenced
    /// event's id for disputes, resolves and chargebacks.
    pub tx: u32,
    /// The exact decimal amount carried by the event.
    pub amount: Amount,
    /// What kind of event this is.
    pub transaction_type: TransactionType,
}

} // verus!
