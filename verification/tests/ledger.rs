//! Tests of the per-account balance state machine.

use transactify::amount::{Amount, MAX_UNITS, UNITS_PER_WHOLE};
use transactify::balance::{Balance, Failure};
use transactify::transaction::{Transaction, TransactionType};

fn whole(n: i128) -> Amount {
    Amount::new(n * UNITS_PER_WHOLE)
}

fn deposit(client: u16, tx: u32, amount: Amount) -> Transaction {
    Transaction { client, tx, amount, transaction_type: TransactionType::Deposit }
}

fn withdrawal(client: u16, tx: u32, amount: Amount) -> Transaction {
    Transaction { client, tx, amount, transaction_type: TransactionType::Withdrawal }
}

fn reference(client: u16, tx: u32, transaction_type: TransactionType) -> Transaction {
    Transaction { client, tx, amount: Amount::zero(), transaction_type }
}

#[test]
fn decimals_are_rounded_works() {
    let mut balance = Balance::default();
    balance.mint_funds(Amount::new(111_111_110));
    balance.round();
    assert_eq!(balance.available, Amount::new(111_110_000));
}

#[test]
fn two_deposits_accumulate() {
    let mut b = Balance::from_transaction(deposit(1, 1, whole(10))).unwrap();
    let r = b.process_transaction(&deposit(1, 2, whole(5)));
    assert_eq!(r, Ok(()));
    assert_eq!(b.available, whole(15));
    assert_eq!(b.held, whole(0));
    assert_eq!(b.total, whole(15));
    assert!(!b.locked);
}

#[test]
fn over_withdrawal_fails_and_leaves_funds() {
    let mut b = Balance::from_transaction(deposit(1, 1, whole(10))).unwrap();
    let r = b.process_transaction(&withdrawal(1, 2, whole(15)));
    assert_eq!(r, Err(Failure::InsufficientFunds));
    assert_eq!(b.available, whole(10));
    assert_eq!(b.total, whole(10));
}

#[test]
fn withdrawal_within_funds_succeeds() {
    let mut b = Balance::from_transaction(deposit(1, 1, whole(10))).unwrap();
    let r = b.process_transaction(&withdrawal(1, 2, whole(4)));
    assert_eq!(r, Ok(()));
    assert_eq!(b.available, whole(6));
    assert_eq!(b.total, whole(6));
}

#[test]
fn dispute_holds_the_referenced_amount() {
    let mut b = Balance::from_transaction(deposit(1, 1, whole(10))).unwrap();
    let r = b.process_transaction(&reference(1, 1, TransactionType::Dispute));
    assert_eq!(r, Ok(()));
    assert_eq!(b.available, whole(0));
    assert_eq!(b.held, whole(10));
    assert_eq!(b.total, whole(10));
    assert!(!b.locked);
}

#[test]
fn resolve_is_gated_and_fails_on_a_fresh_dispute() {
    let mut b = Balance::from_transaction(deposit(1, 1, whole(10))).unwrap();
    b.process_transaction(&reference(1, 1, TransactionType::Dispute)).unwrap();
    let r = b.process_transaction(&reference(1, 1, TransactionType::Resolve));
    assert_eq!(r, Err(Failure::ResolveWithoutResolution));
    assert_eq!(b.available, whole(0));
    assert_eq!(b.held, whole(10));
    assert_eq!(b.total, whole(10));
}

#[test]
fn chargeback_is_gated_and_fails_without_resolution() {
    let mut b = Balance::from_transaction(deposit(1, 1, whole(10))).unwrap();
    b.process_transaction(&reference(1, 1, TransactionType::Dispute)).unwrap();
    let r = b.process_transaction(&reference(1, 1, TransactionType::Chargeback));
    assert_eq!(r, Err(Failure::ChargebackWithoutResolution));
    assert!(!b.locked);
    assert_eq!(b.held, whole(10));
    assert_eq!(b.total, whole(10));
}

#[test]
fn duplicate_deposit_fails_and_mutates_nothing() {
    let mut b = Balance::from_transaction(deposit(1, 1, whole(10))).unwrap();
    let r = b.process_transaction(&deposit(1, 1, whole(3)));
    assert_eq!(r, Err(Failure::DuplicateEvent));
    assert_eq!(b.available, whole(10));
    assert_eq!(b.total, whole(10));
}

#[test]
fn duplicate_withdrawal_fails_and_mutates_nothing() {
    let mut b = Balance::from_transaction(deposit(1, 1, whole(10))).unwrap();
    b.process_transaction(&withdrawal(1, 2, whole(2))).unwrap();
    let r = b.process_transaction(&withdrawal(1, 2, whole(2)));
    assert_eq!(r, Err(Failure::DuplicateEvent));
    assert_eq!(b.available, whole(8));
    assert_eq!(b.total, whole(8));
}

#[test]
fn non_positive_deposit_fails() {
    let mut b = Balance::from_transaction(deposit(1, 1, whole(10))).unwrap();
    assert_eq!(
        b.process_transaction(&deposit(1, 2, whole(0))),
        Err(Failure::InvalidAmount)
    );
    assert_eq!(
        b.process_transaction(&deposit(1, 3, whole(-5))),
        Err(Failure::InvalidAmount)
    );
    assert_eq!(b.available, whole(10));
}

#[test]
fn non_positive_withdrawal_fails() {
    let mut b = Balance::from_transaction(deposit(1, 1, whole(10))).unwrap();
    assert_eq!(
        b.process_transaction(&withdrawal(1, 2, whole(0))),
        Err(Failure::InvalidAmount)
    );
    assert_eq!(b.available, whole(10));
}

#[test]
fn cross_account_event_fails() {
    let mut b = Balance::from_transaction(deposit(1, 1, whole(10))).unwrap();
    let r = b.process_transaction(&deposit(2, 2, whole(5)));
    assert_eq!(r, Err(Failure::AccountMismatch));
    assert_eq!(b.available, whole(10));
}

#[test]
fn only_a_deposit_creates_an_account() {
    let r = Balance::from_transaction(withdrawal(1, 1, whole(10)));
    assert_eq!(r.err(), Some(Failure::NotADeposit));
    let r = Balance::from_transaction(reference(1, 1, TransactionType::Dispute));
    assert_eq!(r.err(), Some(Failure::NotADeposit));
}

#[test]
fn deposit_beyond_the_representable_range_fails() {
    let mut b = Balance::from_transaction(deposit(1, 1, Amount::new(MAX_UNITS))).unwrap();
    let r = b.process_transaction(&deposit(1, 2, Amount::new(MAX_UNITS)));
    assert_eq!(r, Err(Failure::AmountOverflow));
    assert_eq!(b.available, Amount::new(MAX_UNITS));
}

#[test]
fn dispute_of_an_unknown_event_is_a_no_op() {
    let mut b = Balance::from_transaction(deposit(1, 1, whole(10))).unwrap();
    let r = b.process_transaction(&reference(1, 99, TransactionType::Dispute));
    assert_eq!(r, Ok(()));
    assert_eq!(b.available, whole(10));
    assert_eq!(b.held, whole(0));
}

#[test]
fn resolve_of_an_unknown_event_is_still_gated() {
    let mut b = Balance::from_transaction(deposit(1, 1, whole(10))).unwrap();
    let r = b.process_transaction(&reference(1, 99, TransactionType::Resolve));
    assert_eq!(r, Err(Failure::ResolveWithoutResolution));
}

#[test]
fn second_dispute_of_the_same_event_moves_the_recorded_amount() {
    // The first dispute records itself over the referenced event, so a
    // second dispute moves the dispute row's own (zero) amount.
    let mut b = Balance::from_transaction(deposit(1, 1, whole(10))).unwrap();
    b.process_transaction(&reference(1, 1, TransactionType::Dispute)).unwrap();
    let r = b.process_transaction(&reference(1, 1, TransactionType::Dispute));
    assert_eq!(r, Ok(()));
    assert_eq!(b.available, whole(0));
    assert_eq!(b.held, whole(10));
    assert_eq!(b.total, whole(10));
}

#[test]
fn total_stays_the_sum_of_available_and_held() {
    let mut b = Balance::from_transaction(deposit(1, 1, whole(10))).unwrap();
    let events = [
        deposit(1, 2, whole(7)),
        withdrawal(1, 3, whole(4)),
        reference(1, 2, TransactionType::Dispute),
        deposit(1, 4, whole(1)),
        reference(1, 2, TransactionType::Resolve),
        withdrawal(1, 3, whole(1)),
    ];
    for e in events.iter() {
        let _ = b.process_transaction(e);
        assert_eq!(
            b.total.units(),
            b.available.units() + b.held.units()
        );
    }
}

#[test]
fn locked_never_becomes_false_again() {
    let mut b = Balance::from_transaction(deposit(1, 1, whole(10))).unwrap();
    b.locked = true;
    let events = [
        deposit(1, 2, whole(5)),
        withdrawal(1, 3, whole(1)),
        reference(1, 1, TransactionType::Dispute),
        reference(1, 1, TransactionType::Resolve),
        reference(1, 1, TransactionType::Chargeback),
    ];
    for e in events.iter() {
        let _ = b.process_transaction(e);
        assert!(b.locked);
    }
    // in this model a lock does not block further events
    assert_eq!(b.total, whole(14));
}

#[test]
fn rounding_ties_go_to_the_even_multiple() {
    assert_eq!(Amount::new(5_000).rounded(), Amount::new(0));
    assert_eq!(Amount::new(15_000).rounded(), Amount::new(20_000));
    assert_eq!(Amount::new(25_000).rounded(), Amount::new(20_000));
    assert_eq!(Amount::new(-5_000).rounded(), Amount::new(0));
    assert_eq!(Amount::new(-15_000).rounded(), Amount::new(-20_000));
    assert_eq!(Amount::new(14_999).rounded(), Amount::new(10_000));
    assert_eq!(Amount::new(15_001).rounded(), Amount::new(20_000));
}

#[test]
fn burn_funds_subtracts_from_available_and_total() {
    let mut balance = Balance::default();
    balance.mint_funds(whole(9));
    balance.burn_funds(whole(4));
    assert_eq!(balance.available, whole(5));
    assert_eq!(balance.total, whole(5));
    assert_eq!(balance.held, whole(0));
}

#[test]
fn amount_accessors_work() {
    assert_eq!(Amount::zero().units(), 0);
    assert_eq!(Amount::new(123).units(), 123);
    assert!(Amount::new(1).is_positive());
    assert!(!Amount::new(0).is_positive());
    assert!(!Amount::new(-1).is_positive());
    assert!(Amount::new(3).lt(&Amount::new(4)));
    assert!(!Amount::new(4).lt(&Amount::new(4)));
    assert_eq!(Amount::new(3).checked_add(Amount::new(4)), Some(Amount::new(7)));
    assert_eq!(Amount::new(MAX_UNITS).checked_add(Amount::new(1)), None);
    assert_eq!(Amount::new(3).checked_sub(Amount::new(4)), Some(Amount::new(-1)));
    assert_eq!(Amount::new(-MAX_UNITS).checked_sub(Amount::new(1)), None);
}
