//! Tests of the ledger book and the batch replay driver.

use transactify::amount::{Amount, UNITS_PER_WHOLE};
use transactify::state::InfailableState;
use transactify::transaction::{Transaction, TransactionType};

fn whole(n: i128) -> Amount {
    Amount::new(n * UNITS_PER_WHOLE)
}

fn event(client: u16, tx: u32, amount: Amount, transaction_type: TransactionType) -> Transaction {
    Transaction { client, tx, amount, transaction_type }
}

#[test]
fn replay_creates_accounts_and_applies_events() {
    let mut state = InfailableState::new();
    state.process_transactions(vec![
        event(1, 1, whole(10), TransactionType::Deposit),
        event(2, 2, whole(3), TransactionType::Deposit),
        event(1, 3, whole(5), TransactionType::Deposit),
        event(2, 4, whole(1), TransactionType::Withdrawal),
    ]);
    let mut rows = state.snapshot();
    rows.sort_by_key(|row| row.0);
    assert_eq!(rows.len(), 2);
    assert_eq!(rows[0], (1, whole(15), whole(0), whole(15), false));
    assert_eq!(rows[1], (2, whole(2), whole(0), whole(2), false));
}

#[test]
fn invalid_sequence_works() {
    // A stream full of illegally sequenced events must not stop the batch:
    // every failure is tolerated and the rest still applies.
    let mut state = InfailableState::new();
    state.process_transactions(vec![
        event(1, 1, whole(5), TransactionType::Withdrawal),
        event(1, 1, Amount::zero(), TransactionType::Resolve),
        event(1, 1, whole(10), TransactionType::Deposit),
        event(1, 1, whole(10), TransactionType::Deposit),
        event(1, 2, whole(100), TransactionType::Withdrawal),
        event(1, 9, Amount::zero(), TransactionType::Chargeback),
        event(2, 3, whole(-1), TransactionType::Deposit),
        event(1, 4, whole(2), TransactionType::Withdrawal),
    ]);
    let mut rows = state.snapshot();
    rows.sort_by_key(|row| row.0);
    // the constructor does not vet the amount, so client 2 exists with a
    // negative starting balance
    assert_eq!(rows.len(), 2);
    assert_eq!(rows[0], (1, whole(8), whole(0), whole(8), false));
    assert_eq!(rows[1], (2, whole(-1), whole(0), whole(-1), false));
}

#[test]
fn first_event_must_be_a_deposit() {
    let mut state = InfailableState::new();
    state.process_transactions(vec![
        event(7, 1, whole(5), TransactionType::Withdrawal),
        event(7, 2, Amount::zero(), TransactionType::Dispute),
    ]);
    assert_eq!(state.snapshot().len(), 0);
}

#[test]
fn a_dispute_freezes_funds_across_the_book() {
    let mut state = InfailableState::new();
    state.process_transactions(vec![
        event(1, 1, whole(10), TransactionType::Deposit),
        event(1, 1, Amount::zero(), TransactionType::Dispute),
    ]);
    let rows = state.snapshot();
    assert_eq!(rows, vec![(1, whole(0), whole(10), whole(10), false)]);
}

#[test]
fn rounding_applies_to_balances_during_replay() {
    let mut state = InfailableState::new();
    state.process_transactions(vec![event(
        1,
        1,
        Amount::new(111_111_110),
        TransactionType::Deposit,
    )]);
    let rows = state.snapshot();
    assert_eq!(rows, vec![(1, Amount::new(111_110_000), whole(0), Amount::new(111_110_000), false)]);
}

#[test]
fn replay_keeps_every_account_balanced() {
    let mut state = InfailableState::new();
    state.process_transactions(vec![
        event(1, 1, whole(10), TransactionType::Deposit),
        event(2, 2, whole(20), TransactionType::Deposit),
        event(1, 1, Amount::zero(), TransactionType::Dispute),
        event(1, 3, whole(4), TransactionType::Deposit),
        event(2, 4, whole(19), TransactionType::Withdrawal),
        event(2, 2, Amount::zero(), TransactionType::Dispute),
    ]);
    for row in state.snapshot() {
        assert_eq!(row.3.units(), row.1.units() + row.2.units());
    }
}
