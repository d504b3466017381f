//! The ledger book: a mapping from account id to that account's balance
//! state, filled by replaying an ordered event stream. Per-event failures
//! are tolerated: a rejected event is skipped and replay goes on, so the
//! replay itself is infallible.

use vstd::prelude::*;
use std::collections::HashMap;
use crate::amount::Amount;
use crate::amount::quantized;
use crate::balance::{
    Balance,
    BalanceView,
    balanced,
    init_balance,
    lemma_locked_is_permanent,
    lemma_new_account_balanced,
    lemma_step_preserves_balance,
    quantized_amounts,
    step,
};
use crate::transaction::Transaction;

verus! {

broadcast use vstd::std_specs::hash::group_hash_axioms;

/// What one replayed event does to the book: an event for a known account is
/// applied to that account's state (a failure leaves it as it was); an event
/// for an unknown account creates the account, but only from a deposit — any
/// other first event is skipped and the account is not created.
pub open spec fn replay_step(book: Map<u16, BalanceView>, t: Transaction) -> Map<
    u16,
    BalanceView,
> {
    if book.dom().contains(t.client) {
        book.insert(t.client, step(book[t.client], t).0)
    } else if t.transaction_type is Deposit {
        book.insert(t.client, init_balance(t))
    } else {
        book
    }
}

/// Replay of a finite event sequence against a book, one event at a time, in
/// the given order.
pub open spec fn replay(book: Map<u16, BalanceView>, ts: Seq<Transaction>) -> Map<u16, BalanceView>
    decreases ts.len(),
{
    if ts.len() == 0 {
        book
    } else {
        replay_step(replay(book, ts.drop_last()), ts.last())
    }
}

/// Law: after replaying any event sequence whose amounts lie on the
/// 4-fractional-digit boundary into a book whose accounts are all balanced
/// and quantized, every account is still balanced — its total equals its
/// available plus its held funds — at every observable point, the end of the
/// replay included.
pub proof fn lemma_replay_preserves_balance(book: Map<u16, BalanceView>, ts: Seq<Transaction>)
    requires
        forall|id: u16| #[trigger]
            book.dom().contains(id) ==> balanced(book[id]) && quantized_amounts(book[id]),
        forall|i: int| 0 <= i < ts.len() ==> quantized(#[trigger] ts[i].amount@),
    ensures
        forall|id: u16| #[trigger]
            replay(book, ts).dom().contains(id) ==> balanced(replay(book, ts)[id])
                && quantized_amounts(replay(book, ts)[id]),
    decreases ts.len(),
{
    if ts.len() > 0 {
        let prefix = ts.drop_last();
        let t = ts.last();
        lemma_replay_preserves_balance(book, prefix);
        let mid = replay(book, prefix);
        if mid.dom().contains(t.client) {
            lemma_step_preserves_balance(mid[t.client], t);
        } else if t.transaction_type is Deposit {
            lemma_new_account_balanced(t);
        }
    }
}

/// Law: once an account is locked, it stays locked for the remainder of the
/// run — no later event of any kind can unlock it or remove it.
pub proof fn lemma_replay_keeps_locked(book: Map<u16, BalanceView>, ts: Seq<Transaction>, id: u16)
    requires
        book.dom().contains(id),
        book[id].locked,
    ensures
        replay(book, ts).dom().contains(id),
        replay(book, ts)[id].locked,
    decreases ts.len(),
{
    if ts.len() > 0 {
        let prefix = ts.drop_last();
        let t = ts.last();
        lemma_replay_keeps_locked(book, prefix, id);
        let mid = replay(book, prefix);
        if mid.dom().contains(t.client) && t.client == id {
            lemma_locked_is_permanent(mid[id], t);
        }
    }
}

/// The ledger book: per-account balance states, keyed by account id.
#[derive(Debug)]
pub struct InfailableState {
    /// Each known account's state; mutated only through
    /// `process_transactions`.
    accounts: HashMap<u16, Balance>,
    /// The known account ids, in order of first sight, without duplicates.
    account_ids: Vec<u16>,
}

impl View for InfailableState {
    type V = Map<u16, BalanceView>;

    closed spec fn view(&self) -> Map<u16, BalanceView> {
        Map::new(
            |id: u16| self.accounts@.contains_key(id),
            |id: u16| self.accounts@[id]@,
        )
    }
}

impl InfailableState {
    /// The book is well formed: the recorded account ids are exactly the
    /// map's keys, each exactly once, and every account is stored under its
    /// own client id.
    pub closed spec fn wf(&self) -> bool {
        &&& self.account_ids@.no_duplicates()
        &&& forall|id: u16|
            #![trigger self.accounts@.contains_key(id)]
            #![trigger self.account_ids@.contains(id)]
            self.accounts@.contains_key(id) <==> self.account_ids@.contains(id)
        &&& forall|id: u16| #[trigger] self.accounts@.contains_key(id)
            ==> self.accounts@[id]@.client == id
    }

    /// An empty book with no accounts.
    pub fn new() -> (s: Self)
        ensures
            s.wf(),
            s@ == Map::<u16, BalanceView>::empty(),
    {
        let s = InfailableState { accounts: HashMap::new(), account_ids: Vec::new() };
        proof {
            assert(s@ =~= Map::<u16, BalanceView>::empty());
        }
        s
    }

    /// Replays one event into the book, exactly as [`replay_step`]
    /// prescribes; a rejected event leaves the book unchanged.
    fn replay_one(&mut self, t: &Transaction)
        requires
            old(self).wf(),
        ensures
            final(self).wf(),
            final(self)@ == replay_step(old(self)@, *t),
    {
        let client_id = t.client;
        if self.accounts.contains_key(&client_id) {
            let removed = self.accounts.remove(&client_id);
            match removed {
                Some(mut state) => {
                    let _ = state.process_transaction(t);
                    self.accounts.insert(client_id, state);
                    proof {
                        assert(self.accounts@.contains_key(client_id));
                        assert forall|id: u16| self.accounts@.contains_key(id)
                            <==> old(self).accounts@.contains_key(id) by {}
                        assert(self@ =~= replay_step(old(self)@, *t));
                    }
                },
                None => {
                    proof {
                        assert(false);
                    }
                },
            }
        } else {
            match Balance::from_transaction(*t) {
                Ok(b) => {
                    self.accounts.insert(client_id, b);
                    self.account_ids.push(client_id);
                    proof {
                        let ids0 = old(self).account_ids@;
                        let ids1 = self.account_ids@;
                        assert(!ids0.contains(client_id));
                        assert forall|id: u16| self.accounts@.contains_key(id) <==> ids1.contains(
                            id,
                        ) by {
                            if id == client_id {
                                assert(ids1[ids0.len() as int] == client_id);
                            } else {
                                if ids0.contains(id) {
                                    let j = choose|j: int|
                                        0 <= j < ids0.len() && ids0[j] == id;
                                    assert(ids1[j] == id);
                                }
                                if ids1.contains(id) {
                                    let j = choose|j: int|
                                        0 <= j < ids1.len() && ids1[j] == id;
                                    assert(ids0[j] == id);
                                }
                            }
                        }
                        assert forall|p: int, q: int|
                            0 <= p < q < ids1.len() implies ids1[p] != ids1[q] by {
                            if q < ids0.len() {
                                assert(ids0[p] != ids0[q]);
                            } else {
                                assert(ids1[q] == client_id);
                                if ids0[p] == client_id {
                                    assert(ids0.contains(client_id));
                                }
                            }
                        }
                        assert(self@ =~= replay_step(old(self)@, *t));
                    }
                },
                Err(_) => {
                    proof {
                        assert(self@ =~= replay_step(old(self)@, *t));
                    }
                },
            }
        }
    }

    /// Replays all the collected events into the book, in order, without
    /// stopping on rejected ones: the final book is exactly the [`replay`]
    /// of the event sequence.
    pub fn process_transactions(&mut self, transactions: Vec<Transaction>)
        requires
            old(self).wf(),
        ensures
            final(self).wf(),
            final(self)@ == replay(old(self)@, transactions@),
    {
        let n = transactions.len();
        let mut i: usize = 0;
        while i < n
            invariant
                n == transactions@.len(),
                i <= n,
                self.wf(),
                self@ == replay(old(self)@, transactions@.take(i as int)),
            decreases n - i,
        {
            let t = transactions[i];
            self.replay_one(&t);
            proof {
                assert(transactions@.take(i + 1 as int).drop_last() =~= transactions@.take(
                    i as int,
                ));
                assert(transactions@.take(i + 1 as int).last() == transactions@[i as int]);
            }
            i = i + 1;
        }
        proof {
            assert(transactions@.take(n as int) =~= transactions@);
        }
    }

    /// The final per-account rows for export: each known account's id,
    /// available, held and total funds, and lock status, each account
    /// exactly once, in no promised order.
    pub fn snapshot(&self) -> (rows: Vec<(u16, Amount, Amount, Amount, bool)>)
        requires
            self.wf(),
        ensures
            forall|j: int|
                0 <= j < rows@.len() ==> {
                    &&& self@.dom().contains(#[trigger] rows@[j].0)
                    &&& rows@[j].1@ == self@[rows@[j].0].available
                    &&& rows@[j].2@ == self@[rows@[j].0].held
                    &&& rows@[j].3@ == self@[rows@[j].0].total
                    &&& rows@[j].4 == self@[rows@[j].0].locked
                },
            forall|id: u16|
                #[trigger] self@.dom().contains(id) ==> exists|j: int|
                    0 <= j < rows@.len() && rows@[j].0 == id,
            forall|p: int, q: int| 0 <= p < q < rows@.len() ==> rows@[p].0 != rows@[q].0,
    {
        let n = self.account_ids.len();
        let mut rows: Vec<(u16, Amount, Amount, Amount, bool)> = Vec::new();
        let mut i: usize = 0;
        while i < n
            invariant
                n == self.account_ids@.len(),
                i <= n,
                self.wf(),
                rows@.len() == i,
                forall|j: int| 0 <= j < i ==> #[trigger] rows@[j].0 == self.account_ids@[j],
                forall|j: int|
                    0 <= j < i ==> {
                        &&& self@.dom().contains(#[trigger] rows@[j].0)
                        &&& rows@[j].1@ == self@[rows@[j].0].available
                        &&& rows@[j].2@ == self@[rows@[j].0].held
                        &&& rows@[j].3@ == self@[rows@[j].0].total
                        &&& rows@[j].4 == self@[rows@[j].0].locked
                    },
            decreases n - i,
        {
            let id = self.account_ids[i];
            proof {
                assert(self.account_ids@.contains(id));
            }
            let found = self.accounts.get(&id);
            match found {
                Some(b) => {
                    let row = b.snapshot_row();
                    proof {
                        assert(self.accounts@[id] == *b);
                        assert(b@ == self@[id]);
                    }
                    rows.push(row);
                },
                None => {
                    proof {
                        assert(false);
                    }
                },
            }
            i = i + 1;
        }
        proof {
            assert forall|id: u16| self@.dom().contains(id) implies exists|j: int|
                0 <= j < rows@.len() && rows@[j].0 == id by {
                assert(self.account_ids@.contains(id));
                let j = choose|j: int|
                    0 <= j < self.account_ids@.len() && self.account_ids@[j] == id;
                assert(rows@[j].0 == id);
            }
        }
        rows
    }
}

} // verus!
