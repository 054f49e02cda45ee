//! A worker: the accounts of the clients assigned to it and their registry
//! of disputable deposits, to which it applies its transactions one by one.

use crate::ledger::{
    apply_tx, diagnose, ignored, lemma_transition_keeps_balance, lemma_transition_keeps_client,
    settled, transition, Ignored,
};
use crate::registry::{lookup, Registry};
use crate::types::{
    ClientState, ClientTx, ClientView, PenguinError, Transaction, TransactionType,
    TransactionView,
};
use std::collections::HashMap;
use vstd::prelude::*;
use vstd::std_specs::iter::IteratorSpec;

verus! {

/// A worker as its contracts see it.
pub struct WorkerView {
    /// The account of each client that the worker has met.
    pub states: Map<u16, ClientView>,
    /// The amounts of the deposits that can still be disputed.
    pub registry: Map<ClientTx, int>,
    /// Whether a balance has overflowed: the worker has then stopped and
    /// reports no accounts.
    pub failed: bool,
}

/// Whether a transaction's amount enters the registry before the
/// transaction is applied: it does for a deposit with an amount on an
/// account that is not locked.
pub open spec fn registers(state: ClientView, tx: TransactionView) -> bool {
    tx.tx_type == TransactionType::Deposit && tx.amount is Some && !state.locked
}

/// The registry after the worker has looked at `tx`: the first deposit under
/// a key is recorded, a later one under the same key is not.
pub open spec fn registered(registry: Map<ClientTx, int>, state: ClientView, tx: TransactionView)
    -> Map<ClientTx, int> {
    if registers(state, tx) && !registry.contains_key(tx.key()) {
        registry.insert(tx.key(), tx.amount->0)
    } else {
        registry
    }
}

/// Whether a result is the refusal for overflow.
pub open spec fn is_overflow(result: Result<(), PenguinError>) -> bool {
    result matches Err(PenguinError::AmountOverflow(_))
}

impl WorkerView {
    /// A worker that has met no client.
    pub open spec fn fresh() -> WorkerView {
        WorkerView { states: Map::empty(), registry: Map::empty(), failed: false }
    }

    /// The account of `client`: the recorded one, or a fresh one.
    pub open spec fn account(self, client: u16) -> ClientView {
        if self.states.contains_key(client) {
            self.states[client]
        } else {
            ClientView::fresh(client)
        }
    }

    /// The worker after one transaction.
    ///
    /// The client's account is created if it is new, the amount of a deposit
    /// is registered, and the ledger state machine is applied. A refusal for
    /// a missing amount leaves the account as it was and the worker goes on;
    /// an overflow stops the worker for good.
    pub open spec fn step(self, tx: TransactionView) -> WorkerView {
        if self.failed {
            self
        } else {
            let state = self.account(tx.client);
            let registry = registered(self.registry, state, tx);
            let change = transition(state, tx, lookup(registry, tx.key()));
            WorkerView {
                states: self.states.insert(tx.client, change.state),
                registry: settled(registry, tx.key(), change),
                failed: is_overflow(change.result),
            }
        }
    }

    /// What the worker answers to one transaction: the result of the ledger
    /// state machine, or the refusal for overflow once it has stopped.
    pub open spec fn answer(self, tx: TransactionView) -> Result<(), PenguinError> {
        if self.failed {
            Err(PenguinError::AmountOverflow(tx.client))
        } else {
            let state = self.account(tx.client);
            transition(state, tx, lookup(registered(self.registry, state, tx), tx.key())).result
        }
    }

    /// Whether the worker's ledger ignores a transaction, and why.
    pub open spec fn ignores(self, tx: TransactionView) -> Option<Ignored> {
        ignored(self.account(tx.client), tx, lookup(self.registry, tx.key()))
    }

    /// The worker after a sequence of transactions, first to last.
    pub open spec fn run(self, txs: Seq<TransactionView>) -> WorkerView
        decreases txs.len(),
    {
        if txs.len() == 0 {
            self
        } else {
            self.run(txs.drop_last()).step(txs.last())
        }
    }

    /// Every account is recorded under its own client and is balanced.
    pub open spec fn wf(self) -> bool {
        forall|client: u16| #[trigger]
            self.states.contains_key(client) ==> self.states[client].client == client
                && self.states[client].balanced()
    }
}

/// The views of a sequence of transactions.
pub open spec fn views(txs: Seq<Transaction>) -> Seq<TransactionView> {
    txs.map_values(|tx: Transaction| tx@)
}

/// Whether `list` holds each account of `states` exactly once, in any order.
pub open spec fn lists(list: Seq<ClientState>, states: Map<u16, ClientView>) -> bool {
    &&& forall|i: int|
        0 <= i < list.len() ==> states.contains_key(#[trigger] list[i].client)
            && states[list[i].client] == list[i]@
    &&& forall|i: int, j: int|
        0 <= i < j < list.len() ==> #[trigger] list[i].client != #[trigger] list[j].client
    &&& forall|client: u16| #[trigger]
        states.contains_key(client) ==> exists|i: int|
            0 <= i < list.len() && #[trigger] list[i].client == client
}

/// The accounts of a partition of the clients.
///
/// The view is a [`WorkerView`]. Every worker is well formed: each account
/// is recorded under its own client, and its total is what is available plus
/// what is held.
pub struct Worker {
    client_states: HashMap<u16, ClientState>,
    client_tx_registry: Registry,
    failed: bool,
}

impl View for Worker {
    type V = WorkerView;

    closed spec fn view(&self) -> WorkerView {
        WorkerView {
            states: Map::new(
                |client: u16| self.client_states@.contains_key(client),
                |client: u16| self.client_states@[client]@,
            ),
            registry: self.client_tx_registry@,
            failed: self.failed,
        }
    }
}

impl Worker {
    #[verifier::type_invariant]
    pub closed spec fn inv(self) -> bool {
        forall|client: u16| #[trigger]
            self.client_states@.contains_key(client) ==> self.client_states@[client].client
                == client && self.client_states@[client]@.balanced()
    }

    /// A worker that has met no client.
    pub fn new() -> (r: Worker)
        ensures
            r@ == WorkerView::fresh(),
    {
        let r = Worker {
            client_states: HashMap::new(),
            client_tx_registry: Registry::new(),
            failed: false,
        };
        assert(r@.states =~= Map::<u16, ClientView>::empty());
        r
    }

    /// Every worker is well formed.
    pub proof fn lemma_wf(self)
        requires
            self.inv(),
        ensures
            self@.wf(),
    {
    }

    /// Whether the worker is still going; a worker that has failed ignores
    /// what it is given.
    pub fn is_alive(&self) -> (r: bool)
        ensures
            r == !self@.failed,
    {
        !self.failed
    }

    /// Tells whether the ledger would ignore the transaction, and why. A
    /// worker that is still going and ignores a transaction is, but for the
    /// new account of a client it had not met, the same afterwards.
    pub fn diagnose(&self, tx: &Transaction) -> (r: Option<Ignored>)
        ensures
            r == self@.ignores(tx@),
            r is Some && !self@.failed ==> self@.step(tx@) == (WorkerView {
                states: self@.states.insert(tx.client, self@.account(tx.client)),
                ..self@
            }),
    {
        broadcast use vstd::std_specs::hash::group_hash_axioms;

        let state = match self.client_states.get(&tx.client) {
            Some(state) => *state,
            None => ClientState::new(tx.client),
        };
        diagnose(&state, tx, &self.client_tx_registry)
    }

    /// Applies one transaction and returns what the ledger state machine
    /// has answered. After the refusal for a missing amount the worker goes
    /// on; the refusal for overflow stops it, and it then answers every
    /// further transaction with that refusal and changes nothing.
    pub fn process(&mut self, tx: &Transaction) -> (r: Result<(), PenguinError>)
        ensures
            final(self)@ == old(self)@.step(tx@),
            r == old(self)@.answer(tx@),
            is_overflow(r) == final(self)@.failed,
    {
        broadcast use vstd::std_specs::hash::group_hash_axioms;

        if self.failed {
            return Err(PenguinError::AmountOverflow(tx.client));
        }
        proof {
            use_type_invariant(&*self);
        }
        let mut states = HashMap::new();
        std::mem::swap(&mut self.client_states, &mut states);
        let mut registry = Registry::new();
        std::mem::swap(&mut self.client_tx_registry, &mut registry);
        let mut state = match states.get(&tx.client) {
            Some(state) => *state,
            None => ClientState::new(tx.client),
        };
        if let Some(amount) = tx.amount {
            if tx.tx_type == TransactionType::Deposit && !state.locked {
                registry.insert_if_absent((tx.client, tx.tx), amount);
            }
        }
        let ghost before = state@;
        let ghost entry = lookup(registry@, tx@.key());
        let result = apply_tx(&mut state, tx, &mut registry);
        let failed = match result {
            Err(PenguinError::AmountOverflow(_)) => true,
            _ => false,
        };
        states.insert(tx.client, state);
        proof {
            lemma_transition_keeps_balance(before, tx@, entry);
            lemma_transition_keeps_client(before, tx@, entry);
        }
        self.client_states = states;
        self.client_tx_registry = registry;
        self.failed = failed;
        assert(self@.states =~= old(self)@.step(tx@).states);
        result
    }

    /// The accounts of the worker, each once and in no particular order, or
    /// `None` where the worker has failed.
    pub fn finish(self) -> (r: Option<Vec<ClientState>>)
        ensures
            match r {
                Some(list) => !self@.failed && lists(list@, self@.states) && list@.len()
                    == self@.states.len(),
                None => self@.failed,
            },
    {
        broadcast use vstd::std_specs::hash::group_hash_axioms;

        if self.failed {
            return None;
        }
        proof {
            use_type_invariant(&self);
        }
        let mut list: Vec<ClientState> = Vec::new();
        let keys = self.client_states.keys();
        let ghost clients = keys.remaining().unref();
        for client in iter: keys
            invariant
                iter.seq().unref() == clients,
                clients.to_set() == self.client_states@.dom(),
                list@.len() == iter.index(),
                forall|i: int|
                    0 <= i < list@.len() ==> #[trigger] list@[i] == self.client_states@[clients[i]],
        {
            match self.client_states.get(client) {
                Some(state) => {
                    list.push(*state);
                },
                None => {},
            }
        }
        proof {
            assert(self@.states.dom() =~= self.client_states@.dom());
            assert forall|i: int| 0 <= i < list@.len() implies #[trigger] list@[i].client
                == clients[i] by {
                assert(clients.to_set().contains(clients[i]));
            }
            assert forall|client: u16| #[trigger]
                self@.states.contains_key(client) implies exists|i: int|
                0 <= i < list@.len() && #[trigger] list@[i].client == client by {
                assert(clients.to_set().contains(client));
                let i = choose|i: int| 0 <= i < clients.len() && clients[i] == client;
                assert(list@[i].client == client);
            }
        }
        Some(list)
    }
}

/// A list of the accounts of a map is as long as the map is large.
pub proof fn lemma_lists_len(list: Seq<ClientState>, states: Map<u16, ClientView>)
    requires
        lists(list, states),
    ensures
        states.dom().finite(),
        list.len() == states.len(),
{
    let clients = list.map_values(|state: ClientState| state.client);
    assert(clients.no_duplicates()) by {
        assert forall|i: int, j: int|
            0 <= i < clients.len() && 0 <= j < clients.len() && i != j implies clients[i]
            != clients[j] by {
            assert(i < j ==> list[i].client != list[j].client);
            assert(j < i ==> list[j].client != list[i].client);
        }
    }
    assert forall|client: u16| clients.to_set().contains(client) == states.dom().contains(
        client,
    ) by {
        if states.contains_key(client) {
            let i = choose|i: int| 0 <= i < list.len() && #[trigger] list[i].client == client;
            assert(clients[i] == client);
        }
    }
    assert(clients.to_set() =~= states.dom());
    clients.unique_seq_to_set();
    vstd::seq_lib::seq_to_set_is_finite(clients);
}

impl WorkerView {
    /// A worker that starts well formed stays so: after any transactions
    /// every account is recorded under its own client and is balanced.
    pub proof fn lemma_run_keeps_wf(self, txs: Seq<TransactionView>)
        requires
            self.wf(),
        ensures
            self.run(txs).wf(),
        decreases txs.len(),
    {
        if txs.len() > 0 {
            let before = self.run(txs.drop_last());
            let tx = txs.last();
            self.lemma_run_keeps_wf(txs.drop_last());
            if !before.failed {
                let state = before.account(tx.client);
                let entry = lookup(registered(before.registry, state, tx), tx.key());
                lemma_transition_keeps_balance(state, tx, entry);
                lemma_transition_keeps_client(state, tx, entry);
            }
        }
    }

    /// Once an account is locked, no transaction changes it any more.
    pub proof fn lemma_locked_account_is_final(self, txs: Seq<TransactionView>, client: u16)
        requires
            self.states.contains_key(client),
            self.states[client].locked,
        ensures
            self.run(txs).states.contains_key(client),
            self.run(txs).states[client] == self.states[client],
        decreases txs.len(),
    {
        if txs.len() > 0 {
            self.lemma_locked_account_is_final(txs.drop_last(), client);
        }
    }

    /// A transaction for a locked account changes nothing in the worker.
    pub proof fn lemma_locked_account_settles_nothing(self, tx: TransactionView)
        requires
            self.states.contains_key(tx.client),
            self.states[tx.client].locked,
        ensures
            self.step(tx) == self,
    {
        assert(self.step(tx).states =~= self.states);
    }
}

/// Runs a fresh worker over its whole queue, first transaction to last, and
/// returns the final account of every client it has met, each once and in
/// no particular order; `None` where a balance has overflowed.
pub fn run_worker(queue: &Vec<Transaction>) -> (r: Option<Vec<ClientState>>)
    ensures
        match r {
            Some(list) => {
                &&& !WorkerView::fresh().run(views(queue@)).failed
                &&& lists(list@, WorkerView::fresh().run(views(queue@)).states)
                &&& list@.len() == WorkerView::fresh().run(views(queue@)).states.len()
            },
            None => WorkerView::fresh().run(views(queue@)).failed,
        },
{
    let mut worker = Worker::new();
    let mut i: usize = 0;
    while i < queue.len()
        invariant
            i <= queue@.len(),
            worker@ == WorkerView::fresh().run(views(queue@).take(i as int)),
        decreases queue@.len() - i,
    {
        let _ = worker.process(&queue[i]);
        proof {
            let seen = views(queue@).take(i as int);
            assert(views(queue@).take(i + 1).drop_last() =~= seen);
        }
        i += 1;
    }
    proof {
        assert(views(queue@).take(i as int) =~= views(queue@));
    }
    worker.finish()
}

} // verus!
