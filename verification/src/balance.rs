//! The per-account balance state machine.
//!
//! A `Balance` owns one account's full event history and derives its
//! available, held and total funds and its lock status from it. Its single
//! mutating operation, [`Balance::process_transaction`], is total: it never
//! panics, it either applies the event or returns a typed [`Failure`] and
//! leaves the state untouched. The whole transition relation is written down
//! as the specification function [`step`], and `process_transaction` is
//! proved to implement it exactly.

use vstd::prelude::*;
use std::collections::HashMap;
use std::collections::HashSet;
use crate::amount::{
    Amount,
    fits,
    lemma_quantized_add,
    lemma_quantized_sub,
    lemma_round_identity,
    lemma_round_quantized,
    quantized,
    round_to_quantum,
};
use crate::transaction::{Transaction, TransactionType};

verus! {

broadcast use vstd::std_specs::hash::group_hash_axioms;

/// Why an event was rejected: a stable reason code, never a free-text
/// message.
#[derive(Clone, Copy, Debug, PartialEq, Eq, Structural)]
pub enum Failure {
    /// The event's client id does not match the account that received it.
    AccountMismatch,
    /// A deposit or withdrawal carried a zero or negative amount.
    InvalidAmount,
    /// The event's id was already applied to this account, or the referenced
    /// event was already charged back.
    DuplicateEvent,
    /// A withdrawal asked for more than the available or total funds. On
    /// purpose this code does not reveal the actual balance.
    InsufficientFunds,
    /// A dispute referenced an event whose dispute was already resolved.
    ReplayedDispute,
    /// A resolve referenced an event not yet marked resolved.
    ResolveWithoutResolution,
    /// A chargeback referenced an event not yet marked resolved.
    ChargebackWithoutResolution,
    /// Applying the event would push a balance outside the representable
    /// range of `Amount`.
    AmountOverflow,
    /// A new account can only be created from a deposit.
    NotADeposit,
}

/// The mathematical state of one account: what a `Balance` means.
#[verifier::ext_equal]
pub struct BalanceView {
    /// The owning account's id.
    pub client: u16,
    /// Funds usable now, in base units.
    pub available: int,
    /// Funds frozen pending dispute resolution, in base units.
    pub held: int,
    /// Available plus held funds, in base units.
    pub total: int,
    /// Whether a chargeback has permanently locked the account.
    pub locked: bool,
    /// Every applied event, by event id; grows monotonically.
    pub history: Map<u32, Transaction>,
    /// Events currently under open dispute, by event id.
    pub active_disputes: Map<u32, Transaction>,
    /// Event ids whose dispute was resolved.
    pub resolved_disputes: Set<u32>,
    /// Event ids already charged back.
    pub charged_back: Set<u32>,
}

/// The state of a freshly created account: the deposit's amount, rounded to
/// 4 fractional digits, is both the available and the total funds, and the
/// creating deposit is the first entry of the history, so that it can be
/// disputed and cannot be replayed.
pub open spec fn init_balance(t: Transaction) -> BalanceView {
    BalanceView {
        client: t.client,
        available: round_to_quantum(t.amount@),
        held: 0,
        total: round_to_quantum(t.amount@),
        locked: false,
        history: Map::empty().insert(t.tx, t),
        active_disputes: Map::empty(),
        resolved_disputes: Set::empty(),
        charged_back: Set::empty(),
    }
}

/// The checks and effect of a deposit: the amount must be strictly positive,
/// the event id must be new, and the sums must stay representable; then the
/// amount is added to the available and total funds, both are rounded, and
/// the event is recorded.
pub open spec fn step_deposit(pre: BalanceView, t: Transaction) -> (BalanceView, Result<
    (),
    Failure,
>) {
    if t.amount@ <= 0 {
        (pre, Err(Failure::InvalidAmount))
    } else if pre.history.dom().contains(t.tx) {
        (pre, Err(Failure::DuplicateEvent))
    } else if !fits(pre.available + t.amount@) || !fits(pre.total + t.amount@) {
        (pre, Err(Failure::AmountOverflow))
    } else {
        (
            BalanceView {
                available: round_to_quantum(pre.available + t.amount@),
                total: round_to_quantum(pre.total + t.amount@),
                history: pre.history.insert(t.tx, t),
                ..pre
            },
            Ok(()),
        )
    }
}

/// The checks and effect of a withdrawal: the amount must be strictly
/// positive, the event id new, and both the available and the total funds at
/// least the amount; then the amount is subtracted from both, both are
/// rounded, and the event is recorded.
pub open spec fn step_withdrawal(pre: BalanceView, t: Transaction) -> (BalanceView, Result<
    (),
    Failure,
>) {
    if t.amount@ <= 0 {
        (pre, Err(Failure::InvalidAmount))
    } else if pre.history.dom().contains(t.tx) {
        (pre, Err(Failure::DuplicateEvent))
    } else if pre.available < t.amount@ || pre.total < t.amount@ {
        (pre, Err(Failure::InsufficientFunds))
    } else {
        (
            BalanceView {
                available: round_to_quantum(pre.available - t.amount@),
                total: round_to_quantum(pre.total - t.amount@),
                history: pre.history.insert(t.tx, t),
                ..pre
            },
            Ok(()),
        )
    }
}

/// The checks and effect of a dispute. A dispute of an already resolved
/// event is a replay; a dispute of an unknown event id is tolerated as a
/// no-op. Otherwise the referenced event's amount moves from the available
/// to the held funds, the referenced event joins the open disputes, and the
/// dispute itself is recorded under its own (that is, the referenced) id.
pub open spec fn step_dispute(pre: BalanceView, t: Transaction) -> (BalanceView, Result<
    (),
    Failure,
>) {
    if pre.resolved_disputes.contains(t.tx) {
        (pre, Err(Failure::ReplayedDispute))
    } else if !pre.history.dom().contains(t.tx) {
        (pre, Ok(()))
    } else {
        let h = pre.history[t.tx];
        if !fits(pre.available - h.amount@) || !fits(pre.held + h.amount@) {
            (pre, Err(Failure::AmountOverflow))
        } else {
            (
                BalanceView {
                    available: pre.available - h.amount@,
                    held: pre.held + h.amount@,
                    active_disputes: pre.active_disputes.insert(t.tx, h),
                    history: pre.history.insert(t.tx, t),
                    ..pre
                },
                Ok(()),
            )
        }
    }
}

/// The checks and effect of a resolve. The referenced event id must already
/// be marked resolved — the sequencing gate this model prescribes; a resolve
/// of an event with no open dispute is tolerated as a no-op. Otherwise the
/// disputed amount moves from the held back to the available funds, the
/// dispute closes, and the resolve is recorded under the referenced id.
pub open spec fn step_resolve(pre: BalanceView, t: Transaction) -> (BalanceView, Result<
    (),
    Failure,
>) {
    if !pre.resolved_disputes.contains(t.tx) {
        (pre, Err(Failure::ResolveWithoutResolution))
    } else if !pre.active_disputes.dom().contains(t.tx) {
        (pre, Ok(()))
    } else {
        let d = pre.active_disputes[t.tx];
        if !fits(pre.held - d.amount@) || !fits(pre.available + d.amount@) {
            (pre, Err(Failure::AmountOverflow))
        } else {
            (
                BalanceView {
                    held: pre.held - d.amount@,
                    available: pre.available + d.amount@,
                    resolved_disputes: pre.resolved_disputes.insert(d.tx),
                    active_disputes: pre.active_disputes.remove(t.tx),
                    history: pre.history.insert(t.tx, t),
                    ..pre
                },
                Ok(()),
            )
        }
    }
}

/// The checks and effect of a chargeback. The referenced event id must
/// already be marked resolved, must not have been charged back before, and a
/// chargeback of an unknown event id is tolerated as a no-op. Otherwise the
/// account locks permanently and the referenced event's amount leaves the
/// available and total funds; the held funds stay as they are in this model.
pub open spec fn step_chargeback(pre: BalanceView, t: Transaction) -> (BalanceView, Result<
    (),
    Failure,
>) {
    if !pre.resolved_disputes.contains(t.tx) {
        (pre, Err(Failure::ChargebackWithoutResolution))
    } else if pre.charged_back.contains(t.tx) {
        (pre, Err(Failure::DuplicateEvent))
    } else if !pre.history.dom().contains(t.tx) {
        (pre, Ok(()))
    } else {
        let h = pre.history[t.tx];
        if !fits(pre.available - h.amount@) || !fits(pre.total - h.amount@) {
            (pre, Err(Failure::AmountOverflow))
        } else {
            (
                BalanceView {
                    locked: true,
                    charged_back: pre.charged_back.insert(h.tx),
                    available: pre.available - h.amount@,
                    total: pre.total - h.amount@,
                    ..pre
                },
                Ok(()),
            )
        }
    }
}

/// The full transition relation of the account state machine: what applying
/// one event to one account state yields, and with which outcome. An event
/// routed to the wrong account is rejected before anything else.
pub open spec fn step(pre: BalanceView, t: Transaction) -> (BalanceView, Result<(), Failure>) {
    if t.client != pre.client {
        (pre, Err(Failure::AccountMismatch))
    } else {
        match t.transaction_type {
            TransactionType::Deposit => step_deposit(pre, t),
            TransactionType::Withdrawal => step_withdrawal(pre, t),
            TransactionType::Dispute => step_dispute(pre, t),
            TransactionType::Resolve => step_resolve(pre, t),
            TransactionType::Chargeback => step_chargeback(pre, t),
        }
    }
}

/// An account state is balanced when its total funds equal its available
/// plus its held funds, exactly.
pub open spec fn balanced(b: BalanceView) -> bool {
    b.total == b.available + b.held
}

/// All of an account's balances and all amounts it has on record lie on the
/// 4-fractional-digit boundary.
pub open spec fn quantized_amounts(b: BalanceView) -> bool {
    &&& quantized(b.available)
    &&& quantized(b.held)
    &&& quantized(b.total)
    &&& forall|id: u32| #[trigger]
        b.history.dom().contains(id) ==> quantized(b.history[id].amount@)
    &&& forall|id: u32| #[trigger]
        b.active_disputes.dom().contains(id) ==> quantized(b.active_disputes[id].amount@)
}

/// Law: an account freshly created from a deposit whose amount lies on the
/// 4-fractional-digit boundary is balanced — its total equals its available
/// plus its held funds — and all its balances lie on that boundary too.
pub proof fn lemma_new_account_balanced(t: Transaction)
    requires
        quantized(t.amount@),
    ensures
        balanced(init_balance(t)),
        quantized_amounts(init_balance(t)),
{
    lemma_round_quantized(t.amount@);
}

/// Law: `total == available + held` is an invariant of the state machine.
/// It is preserved exactly by every transition whose event amount lies on
/// the 4-fractional-digit boundary, as is the boundary property itself. (An
/// event amount with more fractional digits, such as 1.1111111, can drive
/// the rounded fields away from the exact sum, which is why the law asks for
/// quantized amounts.)
pub proof fn lemma_step_preserves_balance(pre: BalanceView, t: Transaction)
    requires
        balanced(pre),
        quantized_amounts(pre),
        quantized(t.amount@),
    ensures
        balanced(step(pre, t).0),
        quantized_amounts(step(pre, t).0),
{
    if t.client == pre.client {
        match t.transaction_type {
            TransactionType::Deposit => {
                if t.amount@ > 0 && !pre.history.dom().contains(t.tx) && fits(
                    pre.available + t.amount@,
                ) && fits(pre.total + t.amount@) {
                    lemma_quantized_add(pre.available, t.amount@);
                    lemma_quantized_add(pre.total, t.amount@);
                    lemma_round_identity(pre.available + t.amount@);
                    lemma_round_identity(pre.total + t.amount@);
                }
            },
            TransactionType::Withdrawal => {
                if t.amount@ > 0 && !pre.history.dom().contains(t.tx) && pre.available >= t.amount@
                    && pre.total >= t.amount@ {
                    lemma_quantized_sub(pre.available, t.amount@);
                    lemma_quantized_sub(pre.total, t.amount@);
                    lemma_round_identity(pre.available - t.amount@);
                    lemma_round_identity(pre.total - t.amount@);
                }
            },
            TransactionType::Dispute => {
                if !pre.resolved_disputes.contains(t.tx) && pre.history.dom().contains(t.tx) {
                    let h = pre.history[t.tx];
                    lemma_quantized_sub(pre.available, h.amount@);
                    lemma_quantized_add(pre.held, h.amount@);
                }
            },
            TransactionType::Resolve => {
                if pre.resolved_disputes.contains(t.tx) && pre.active_disputes.dom().contains(
                    t.tx,
                ) {
                    let d = pre.active_disputes[t.tx];
                    lemma_quantized_sub(pre.held, d.amount@);
                    lemma_quantized_add(pre.available, d.amount@);
                }
            },
            TransactionType::Chargeback => {
                if pre.resolved_disputes.contains(t.tx) && !pre.charged_back.contains(t.tx)
                    && pre.history.dom().contains(t.tx) {
                    let h = pre.history[t.tx];
                    lemma_quantized_sub(pre.available, h.amount@);
                    lemma_quantized_sub(pre.total, h.amount@);
                }
            },
        }
    }
}

/// Law: once an account is locked it stays locked — no transition ever
/// clears the flag.
pub proof fn lemma_locked_is_permanent(pre: BalanceView, t: Transaction)
    requires
        pre.locked,
    ensures
        step(pre, t).0.locked,
{
}

/// Law: a rejected event never mutates state — applying an event is atomic.
pub proof fn lemma_failure_leaves_state_unchanged(pre: BalanceView, t: Transaction)
    ensures
        step(pre, t).1 is Err ==> step(pre, t).0 == pre,
{
}

/// Law: a deposit or withdrawal whose event id is already on record is
/// rejected and mutates nothing; with a positive amount the reason is
/// `DuplicateEvent`. (With a non-positive amount the event is still
/// rejected, but as `InvalidAmount`, which is checked first.)
pub proof fn lemma_duplicate_event_rejected(pre: BalanceView, t: Transaction)
    requires
        t.client == pre.client,
        t.transaction_type is Deposit || t.transaction_type is Withdrawal,
        pre.history.dom().contains(t.tx),
    ensures
        step(pre, t).0 == pre,
        step(pre, t).1 is Err,
        t.amount@ > 0 ==> step(pre, t).1 == Err::<(), Failure>(Failure::DuplicateEvent),
{
}

/// Law: a withdrawal asking for more than the available or the total funds
/// is rejected and mutates nothing; when no earlier check fails the reason
/// is `InsufficientFunds`.
pub proof fn lemma_insufficient_funds_rejected(pre: BalanceView, t: Transaction)
    requires
        t.client == pre.client,
        t.transaction_type is Withdrawal,
        pre.available < t.amount@ || pre.total < t.amount@,
    ensures
        step(pre, t).0 == pre,
        step(pre, t).1 is Err,
        t.amount@ > 0 && !pre.history.dom().contains(t.tx) ==> step(pre, t).1 == Err::<
            (),
            Failure,
        >(Failure::InsufficientFunds),
{
}

/// Law: a legally sequenced resolve — its event id marked resolved and its
/// dispute open — releases the disputed amount from the held funds back to
/// the available funds and leaves the total alone. (Only a resolve marks an
/// id resolved, so on a new account every resolve is rejected; the law
/// covers every state that satisfies its premise.)
pub proof fn lemma_resolve_releases_funds(pre: BalanceView, t: Transaction)
    requires
        t.client == pre.client,
        t.transaction_type is Resolve,
        pre.resolved_disputes.contains(t.tx),
        pre.active_disputes.dom().contains(t.tx),
        fits(pre.held - pre.active_disputes[t.tx].amount@),
        fits(pre.available + pre.active_disputes[t.tx].amount@),
    ensures
        step(pre, t).1 is Ok,
        step(pre, t).0.available == pre.available + pre.active_disputes[t.tx].amount@,
        step(pre, t).0.held == pre.held - pre.active_disputes[t.tx].amount@,
        step(pre, t).0.total == pre.total,
        step(pre, t).0.locked == pre.locked,
{
}

/// Law: a legally sequenced chargeback — its event id marked resolved, not
/// yet charged back, and on record — locks the account for good and takes
/// the recorded amount out of the available and total funds; the held funds
/// stay as they are in this model.
pub proof fn lemma_chargeback_locks(pre: BalanceView, t: Transaction)
    requires
        t.client == pre.client,
        t.transaction_type is Chargeback,
        pre.resolved_disputes.contains(t.tx),
        !pre.charged_back.contains(t.tx),
        pre.history.dom().contains(t.tx),
        fits(pre.available - pre.history[t.tx].amount@),
        fits(pre.total - pre.history[t.tx].amount@),
    ensures
        step(pre, t).1 is Ok,
        step(pre, t).0.locked,
        step(pre, t).0.available == pre.available - pre.history[t.tx].amount@,
        step(pre, t).0.total == pre.total - pre.history[t.tx].amount@,
        step(pre, t).0.held == pre.held,
{
}

/// Balance state of one account.
#[derive(Debug)]
pub struct Balance {
    /// The owning account's id.
    pub client: u16,
    /// The funds that are available for withdrawal: the total minus the held
    /// funds.
    pub available: Amount,
    /// The funds held for dispute: the total minus the available funds.
    pub held: Amount,
    /// The funds that are available or held.
    pub total: Amount,
    /// Whether the account is locked. An account locks when a chargeback
    /// occurs, and never unlocks.
    pub locked: bool,
    /// Every applied event by id; mutated only through
    /// `process_transaction` and the constructor.
    historic_transactions: HashMap<u32, Transaction>,
    /// Events currently under dispute; mutated only through
    /// `process_transaction`.
    active_dispute_transactions: HashMap<u32, Transaction>,
    /// Event ids whose dispute was resolved.
    resolved_dispute_transactions: HashSet<u32>,
    /// Event ids already charged back.
    charged_back_transactions: HashSet<u32>,
}

impl View for Balance {
    type V = BalanceView;

    closed spec fn view(&self) -> BalanceView {
        BalanceView {
            client: self.client,
            available: self.available@,
            held: self.held@,
            total: self.total@,
            locked: self.locked,
            history: self.historic_transactions@,
            active_disputes: self.active_dispute_transactions@,
            resolved_disputes: self.resolved_dispute_transactions@,
            charged_back: self.charged_back_transactions@,
        }
    }
}

impl Default for Balance {
    /// An empty, unlocked account with id 0 and no funds.
    fn default() -> (b: Self)
        ensures
            b@ == (BalanceView {
                client: 0,
                available: 0,
                held: 0,
                total: 0,
                locked: false,
                history: Map::empty(),
                active_disputes: Map::empty(),
                resolved_disputes: Set::empty(),
                charged_back: Set::empty(),
            }),
    {
        Balance {
            client: 0,
            available: Amount::zero(),
            held: Amount::zero(),
            total: Amount::zero(),
            locked: false,
            historic_transactions: HashMap::new(),
            active_dispute_transactions: HashMap::new(),
            resolved_dispute_transactions: HashSet::new(),
            charged_back_transactions: HashSet::new(),
        }
    }
}

impl Balance {
    /// Constructor for the first event of an account: only a deposit may
    /// create an account, and its rounded amount is the starting funds.
    pub fn from_transaction(transaction: Transaction) -> (result: Result<Balance, Failure>)
        ensures
            match result {
                Ok(b) => transaction.transaction_type is Deposit && b@ == init_balance(
                    transaction,
                ),
                Err(f) => !(transaction.transaction_type is Deposit) && f == Failure::NotADeposit,
            },
    {
        match transaction.transaction_type {
            TransactionType::Deposit => {
                let starting = transaction.amount.rounded();
                let mut history: HashMap<u32, Transaction> = HashMap::new();
                history.insert(transaction.tx, transaction);
                Ok(
                    Balance {
                        client: transaction.client,
                        available: starting,
                        held: Amount::zero(),
                        total: starting,
                        locked: false,
                        historic_transactions: history,
                        active_dispute_transactions: HashMap::new(),
                        resolved_dispute_transactions: HashSet::new(),
                        charged_back_transactions: HashSet::new(),
                    },
                )
            },
            _ => Err(Failure::NotADeposit),
        }
    }

    /// Adds an amount to both the available and the total funds, without
    /// rounding.
    pub fn mint_funds(&mut self, amount: Amount)
        requires
            fits(old(self)@.available + amount@),
            fits(old(self)@.total + amount@),
        ensures
            final(self)@ == (BalanceView {
                available: old(self)@.available + amount@,
                total: old(self)@.total + amount@,
                ..old(self)@
            }),
    {
        self.available = self.available.add_exact(amount);
        self.total = self.total.add_exact(amount);
    }

    /// Subtracts an amount from both the available and the total funds,
    /// without rounding.
    pub fn burn_funds(&mut self, amount: Amount)
        requires
            fits(old(self)@.available - amount@),
            fits(old(self)@.total - amount@),
        ensures
            final(self)@ == (BalanceView {
                available: old(self)@.available - amount@,
                total: old(self)@.total - amount@,
                ..old(self)@
            }),
    {
        self.available = self.available.sub_exact(amount);
        self.total = self.total.sub_exact(amount);
    }

    /// Rounds the available and the total funds to 4 fractional digits.
    pub fn round(&mut self)
        ensures
            final(self)@ == (BalanceView {
                available: round_to_quantum(old(self)@.available),
                total: round_to_quantum(old(self)@.total),
                ..old(self)@
            }),
    {
        self.available = self.available.rounded();
        self.total = self.total.rounded();
    }

    /// The export row for this account: its id, available, held and total
    /// funds, and its lock status.
    pub fn snapshot_row(&self) -> (row: (u16, Amount, Amount, Amount, bool))
        ensures
            row.0 == self@.client,
            row.1@ == self@.available,
            row.2@ == self@.held,
            row.3@ == self@.total,
            row.4 == self@.locked,
    {
        (self.client, self.available, self.held, self.total, self.locked)
    }

    /// Applies one event to this account's state: exactly the transition
    /// that [`step`] prescribes. On failure the state is left untouched.
    pub fn process_transaction(&mut self, transaction: &Transaction) -> (result: Result<
        (),
        Failure,
    >)
        ensures
            final(self)@ == step(old(self)@, *transaction).0,
            result == step(old(self)@, *transaction).1,
    {
        if self.client != transaction.client {
            return Err(Failure::AccountMismatch);
        }
        match transaction.transaction_type {
            TransactionType::Deposit => {
                if !transaction.amount.is_positive() {
                    return Err(Failure::InvalidAmount);
                }
                if self.historic_transactions.contains_key(&transaction.tx) {
                    return Err(Failure::DuplicateEvent);
                }
                let new_available = self.available.checked_add(transaction.amount);
                let new_total = self.total.checked_add(transaction.amount);
                if new_available.is_none() || new_total.is_none() {
                    return Err(Failure::AmountOverflow);
                }
                self.mint_funds(transaction.amount);
                self.round();
                self.historic_transactions.insert(transaction.tx, *transaction);
            },
            TransactionType::Withdrawal => {
                if !transaction.amount.is_positive() {
                    return Err(Failure::InvalidAmount);
                }
                if self.historic_transactions.contains_key(&transaction.tx) {
                    return Err(Failure::DuplicateEvent);
                }
                if self.available.lt(&transaction.amount) || self.total.lt(&transaction.amount) {
                    return Err(Failure::InsufficientFunds);
                }
                proof {
                    use_type_invariant(self.available);
                    use_type_invariant(self.total);
                }
                self.burn_funds(transaction.amount);
                self.round();
                self.historic_transactions.insert(transaction.tx, *transaction);
            },
            TransactionType::Dispute => {
                if self.resolved_dispute_transactions.contains(&transaction.tx) {
                    return Err(Failure::ReplayedDispute);
                }
                let historic = self.historic_transactions.get(&transaction.tx);
                match historic {
                    None => {},
                    Some(h_ref) => {
                        let h = *h_ref;
                        let new_available = self.available.checked_sub(h.amount);
                        let new_held = self.held.checked_add(h.amount);
                        match (new_available, new_held) {
                            (Some(av), Some(hd)) => {
                                self.available = av;
                                self.held = hd;
                                self.active_dispute_transactions.insert(transaction.tx, h);
                                self.historic_transactions.insert(transaction.tx, *transaction);
                            },
                            _ => {
                                return Err(Failure::AmountOverflow);
                            },
                        }
                    },
                }
            },
            TransactionType::Resolve => {
                if !self.resolved_dispute_transactions.contains(&transaction.tx) {
                    return Err(Failure::ResolveWithoutResolution);
                }
                let disputed = self.active_dispute_transactions.get(&transaction.tx);
                match disputed {
                    None => {},
                    Some(d_ref) => {
                        let d = *d_ref;
                        let new_held = self.held.checked_sub(d.amount);
                        let new_available = self.available.checked_add(d.amount);
                        match (new_held, new_available) {
                            (Some(hd), Some(av)) => {
                                self.held = hd;
                                self.available = av;
                                self.resolved_dispute_transactions.insert(d.tx);
                                self.active_dispute_transactions.remove(&transaction.tx);
                                self.historic_transactions.insert(transaction.tx, *transaction);
                            },
                            _ => {
                                return Err(Failure::AmountOverflow);
                            },
                        }
                    },
                }
            },
            TransactionType::Chargeback => {
                if !self.resolved_dispute_transactions.contains(&transaction.tx) {
                    return Err(Failure::ChargebackWithoutResolution);
                }
                if self.charged_back_transactions.contains(&transaction.tx) {
                    return Err(Failure::DuplicateEvent);
                }
                let historic = self.historic_transactions.get(&transaction.tx);
                match historic {
                    None => {},
                    Some(h_ref) => {
                        let h = *h_ref;
                        let new_available = self.available.checked_sub(h.amount);
                        let new_total = self.total.checked_sub(h.amount);
                        match (new_available, new_total) {
                            (Some(av), Some(tt)) => {
                                self.locked = true;
                                self.charged_back_transactions.insert(h.tx);
                                self.available = av;
                                self.total = tt;
                            },
                            _ => {
                                return Err(Failure::AmountOverflow);
                            },
                        }
                    },
                }
            },
        }
        Ok(())
    }
}

} // verus!
