//! The records that the engine reads and writes, and its errors.

use crate::amount::{units_of, Amount};
use vstd::prelude::*;

verus! {

/// A client and a transaction id: the key under which a deposit can later be
/// disputed.
pub type ClientTx = (u16, u32);

/// The kinds of transaction.
#[derive(Clone, Copy, Debug, PartialEq, Eq, Structural)]
pub enum TransactionType {
    /// Adds to the available funds.
    Deposit,
    /// Takes from the available funds, if they suffice.
    Withdrawal,
    /// Moves the amount of an earlier deposit from available to held.
    Dispute,
    /// Moves the amount of an earlier deposit back from held to available.
    Resolve,
    /// Takes the amount of an earlier deposit out of the account and locks it.
    Chargeback,
}

/// One transaction of the input.
#[derive(Clone, Copy, Debug, PartialEq, Eq)]
pub struct Transaction {
    /// What the transaction does.
    pub tx_type: TransactionType,
    /// The client whose account it concerns.
    pub client: u16,
    /// The id of this transaction or, for a dispute, resolve or chargeback,
    /// of the deposit it refers to.
    pub tx: u32,
    /// The amount; a deposit or withdrawal needs one, the others carry none.
    pub amount: Option<Amount>,
}

/// A transaction with its amount as a number of ten-thousandths.
pub struct TransactionView {
    pub tx_type: TransactionType,
    pub client: u16,
    pub tx: u32,
    pub amount: Option<int>,
}

impl View for Transaction {
    type V = TransactionView;

    open spec fn view(&self) -> TransactionView {
        TransactionView {
            tx_type: self.tx_type,
            client: self.client,
            tx: self.tx,
            amount: units_of(self.amount),
        }
    }
}

impl TransactionView {
    /// The registry key that the transaction speaks of.
    pub open spec fn key(self) -> ClientTx {
        (self.client, self.tx)
    }
}

/// The account of one client.
#[derive(Clone, Copy, Debug, PartialEq, Eq, Structural)]
pub struct ClientState {
    /// The client.
    pub client: u16,
    /// Funds that can be withdrawn.
    pub available: Amount,
    /// Funds frozen by disputes.
    pub held: Amount,
    /// All funds of the account.
    pub total: Amount,
    /// Whether a chargeback has locked the account.
    pub locked: bool,
}

/// An account with its balances as numbers of ten-thousandths.
pub struct ClientView {
    pub client: u16,
    pub available: int,
    pub held: int,
    pub total: int,
    pub locked: bool,
}

impl View for ClientState {
    type V = ClientView;

    open spec fn view(&self) -> ClientView {
        ClientView {
            client: self.client,
            available: self.available@,
            held: self.held@,
            total: self.total@,
            locked: self.locked,
        }
    }
}

impl ClientView {
    /// The account that a client starts with: no funds, not locked.
    pub open spec fn fresh(client: u16) -> ClientView {
        ClientView { client, available: 0, held: 0, total: 0, locked: false }
    }

    /// The total is what is available plus what is held.
    pub open spec fn balanced(self) -> bool {
        self.available + self.held == self.total
    }
}

impl ClientState {
    /// The account that a client starts with: no funds, not locked.
    pub fn new(client: u16) -> (r: ClientState)
        ensures
            r@ == ClientView::fresh(client),
    {
        ClientState {
            client,
            available: Amount::zero(),
            held: Amount::zero(),
            total: Amount::zero(),
            locked: false,
        }
    }

    /// Two accounts with one view are one account.
    pub proof fn lemma_view_is_injective(a: ClientState, b: ClientState)
        ensures
            a@ == b@ <==> a == b,
    {
        Amount::lemma_view_is_injective(a.available, b.available);
        Amount::lemma_view_is_injective(a.held, b.held);
        Amount::lemma_view_is_injective(a.total, b.total);
    }
}

/// What can go wrong.
#[derive(Debug, PartialEq, Eq)]
pub enum PenguinError {
    /// The input could not be read or the log not written; the message says
    /// why.
    IO(String),
    /// The record at this position of the input, counted from one, is no
    /// transaction.
    Parse(usize),
    /// A worker's queue was closed before this transaction could be queued.
    ChannelSend(Transaction),
    /// This client received a deposit or a withdrawal without an amount.
    DepositOrWithdrawalWithoutAmount(u16),
    /// A line of text is no transaction; the message says which field failed.
    TransactionParse(String),
    /// A balance of this client left the range of amounts.
    AmountOverflow(u16),
}

} // verus!
