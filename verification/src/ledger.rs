//! The ledger state machine: what one transaction does to one account.

use crate::amount::in_range;
use crate::registry::{lookup, Registry};
use crate::types::{
    ClientState, ClientTx, ClientView, PenguinError, Transaction, TransactionType,
    TransactionView,
};
use vstd::prelude::*;

verus! {

/// Why a transaction is ignored: it is no error, and it changes nothing.
#[derive(Clone, Copy, Debug, PartialEq, Eq, Structural)]
pub enum Ignored {
    /// The account is locked.
    LockedAccount,
    /// The withdrawal asks for more than is available.
    InsufficientFunds,
    /// The dispute, resolve or chargeback refers to no registered deposit.
    UnknownTransaction,
}

/// What a transaction does to an account.
pub struct Transition {
    /// `Ok` where the transaction was applied or ignored, `Err` where it was
    /// refused.
    pub result: Result<(), PenguinError>,
    /// The account afterwards.
    pub state: ClientView,
    /// Whether the registry entry that the transaction refers to is removed.
    pub settles: bool,
}

/// The transition that leaves the account as it is, with this result.
pub open spec fn unchanged(state: ClientView, result: Result<(), PenguinError>) -> Transition {
    Transition { result, state, settles: false }
}

/// The transition to `next` if every balance of `next` is in range, and the
/// refusal for overflow otherwise.
pub open spec fn change(state: ClientView, next: ClientView, settles: bool) -> Transition {
    if in_range(next.available) && in_range(next.held) && in_range(next.total) {
        Transition { result: Ok(()), state: next, settles }
    } else {
        unchanged(state, Err(PenguinError::AmountOverflow(state.client)))
    }
}

/// The ledger state machine.
///
/// `entry` is what the registry holds for the transaction's key: the amount
/// of the deposit that a dispute, resolve or chargeback refers to.
///
/// - A locked account ignores every transaction.
/// - A deposit adds its amount to `available` and `total`.
/// - A withdrawal of more than is available is ignored; any other takes its
///   amount from `available` and `total`.
/// - A dispute, resolve or chargeback without an entry is ignored.
/// - A dispute moves the entry's amount from `available` to `held`.
/// - A resolve moves it back and settles the entry.
/// - A chargeback takes it from `held` and `total`, locks the account and
///   settles the entry.
/// - A deposit or withdrawal without an amount is refused, and so is a
///   change that would take a balance out of range; the account then stays
///   as it was.
pub open spec fn transition(state: ClientView, tx: TransactionView, entry: Option<int>)
    -> Transition {
    if state.locked {
        unchanged(state, Ok(()))
    } else {
        match tx.tx_type {
            TransactionType::Deposit => match tx.amount {
                None => unchanged(
                    state,
                    Err(PenguinError::DepositOrWithdrawalWithoutAmount(state.client)),
                ),
                Some(amount) => change(
                    state,
                    ClientView {
                        available: state.available + amount,
                        total: state.total + amount,
                        ..state
                    },
                    false,
                ),
            },
            TransactionType::Withdrawal => match tx.amount {
                None => unchanged(
                    state,
                    Err(PenguinError::DepositOrWithdrawalWithoutAmount(state.client)),
                ),
                Some(amount) => if state.available < amount {
                    unchanged(state, Ok(()))
                } else {
                    change(
                        state,
                        ClientView {
                            available: state.available - amount,
                            total: state.total - amount,
                            ..state
                        },
                        false,
                    )
                },
            },
            TransactionType::Dispute => match entry {
                None => unchanged(state, Ok(())),
                Some(amount) => change(
                    state,
                    ClientView {
                        held: state.held + amount,
                        available: state.available - amount,
                        ..state
                    },
                    false,
                ),
            },
            TransactionType::Resolve => match entry {
                None => unchanged(state, Ok(())),
                Some(amount) => change(
                    state,
                    ClientView {
                        held: state.held - amount,
                        available: state.available + amount,
                        ..state
                    },
                    true,
                ),
            },
            TransactionType::Chargeback => match entry {
                None => unchanged(state, Ok(())),
                Some(amount) => change(
                    state,
                    ClientView {
                        held: state.held - amount,
                        total: state.total - amount,
                        locked: true,
                        ..state
                    },
                    true,
                ),
            },
        }
    }
}

/// Whether the state machine ignores a transaction, and why.
pub open spec fn ignored(state: ClientView, tx: TransactionView, entry: Option<int>) -> Option<
    Ignored,
> {
    if state.locked {
        Some(Ignored::LockedAccount)
    } else {
        match tx.tx_type {
            TransactionType::Deposit => None,
            TransactionType::Withdrawal => if tx.amount is Some && state.available
                < tx.amount->0 {
                Some(Ignored::InsufficientFunds)
            } else {
                None
            },
            _ => if entry is None {
                Some(Ignored::UnknownTransaction)
            } else {
                None
            },
        }
    }
}

/// The registry after a transition on the entry of `key`.
pub open spec fn settled(registry: Map<ClientTx, int>, key: ClientTx, step: Transition) -> Map<
    ClientTx,
    int,
> {
    if step.settles {
        registry.remove(key)
    } else {
        registry
    }
}

/// Tells whether [`apply_tx`] would ignore the transaction, and why.
pub fn diagnose(client_state: &ClientState, tx: &Transaction, client_tx_registry: &Registry) -> (r:
    Option<Ignored>)
    ensures
        r == ignored(client_state@, tx@, lookup(client_tx_registry@, tx@.key())),
{
    if client_state.locked {
        return Some(Ignored::LockedAccount);
    }
    match tx.tx_type {
        TransactionType::Deposit => None,
        TransactionType::Withdrawal => match tx.amount {
            Some(amount) => if client_state.available.less_than(&amount) {
                Some(Ignored::InsufficientFunds)
            } else {
                None
            },
            None => None,
        },
        _ => match client_tx_registry.get((tx.client, tx.tx)) {
            Some(_) => None,
            None => Some(Ignored::UnknownTransaction),
        },
    }
}

/// Applies one transaction to an account, as [`transition`] says, with the
/// registry entry of `(tx.client, tx.tx)`.
///
/// An account that the transaction leaves as it was is the same value
/// afterwards, field by field.
pub fn apply_tx(
    client_state: &mut ClientState,
    tx: &Transaction,
    client_tx_registry: &mut Registry,
) -> (r: Result<(), PenguinError>)
    ensures
        ({
            let step = transition(
                old(client_state)@,
                tx@,
                lookup(old(client_tx_registry)@, tx@.key()),
            );
            &&& r == step.result
            &&& final(client_state)@ == step.state
            &&& final(client_tx_registry)@ == settled(old(client_tx_registry)@, tx@.key(), step)
            &&& step.state == old(client_state)@ ==> *final(client_state) == *old(client_state)
        }),
{
    if client_state.locked {
        return Ok(());
    }
    let key: ClientTx = (tx.client, tx.tx);
    let available = client_state.available;
    let held = client_state.held;
    let total = client_state.total;
    proof {
        use_type_invariant(&available);
        use_type_invariant(&held);
        use_type_invariant(&total);
        available.lemma_in_range();
        held.lemma_in_range();
        total.lemma_in_range();
    }
    match tx.tx_type {
        TransactionType::Deposit => {
            let amount = match tx.amount {
                Some(amount) => amount,
                None => {
                    return Err(
                        PenguinError::DepositOrWithdrawalWithoutAmount(client_state.client),
                    );
                },
            };
            match (available.checked_add(amount), total.checked_add(amount)) {
                (Some(available), Some(total)) => {
                    client_state.available = available;
                    client_state.total = total;
                },
                _ => {
                    return Err(PenguinError::AmountOverflow(client_state.client));
                },
            }
        },
        TransactionType::Withdrawal => {
            let amount = match tx.amount {
                Some(amount) => amount,
                None => {
                    return Err(
                        PenguinError::DepositOrWithdrawalWithoutAmount(client_state.client),
                    );
                },
            };
            if available.less_than(&amount) {
                return Ok(());
            }
            match (available.checked_sub(amount), total.checked_sub(amount)) {
                (Some(available), Some(total)) => {
                    client_state.available = available;
                    client_state.total = total;
                },
                _ => {
                    return Err(PenguinError::AmountOverflow(client_state.client));
                },
            }
        },
        TransactionType::Dispute => {
            let amount = match client_tx_registry.get(key) {
                Some(amount) => amount,
                None => {
                    return Ok(());
                },
            };
            match (held.checked_add(amount), available.checked_sub(amount)) {
                (Some(held), Some(available)) => {
                    client_state.held = held;
                    client_state.available = available;
                },
                _ => {
                    return Err(PenguinError::AmountOverflow(client_state.client));
                },
            }
        },
        TransactionType::Resolve => {
            let amount = match client_tx_registry.get(key) {
                Some(amount) => amount,
                None => {
                    return Ok(());
                },
            };
            match (held.checked_sub(amount), available.checked_add(amount)) {
                (Some(held), Some(available)) => {
                    client_state.held = held;
                    client_state.available = available;
                    client_tx_registry.remove(key);
                },
                _ => {
                    return Err(PenguinError::AmountOverflow(client_state.client));
                },
            }
        },
        TransactionType::Chargeback => {
            let amount = match client_tx_registry.get(key) {
                Some(amount) => amount,
                None => {
                    return Ok(());
                },
            };
            match (held.checked_sub(amount), total.checked_sub(amount)) {
                (Some(held), Some(total)) => {
                    client_state.held = held;
                    client_state.total = total;
                    client_state.locked = true;
                    client_tx_registry.remove(key);
                },
                _ => {
                    return Err(PenguinError::AmountOverflow(client_state.client));
                },
            }
        },
    }
    proof {
        ClientState::lemma_view_is_injective(*client_state, *old(client_state));
    }
    Ok(())
}

/// A deposit that is applied to an open account adds exactly its amount to
/// `available` and to `total`, and changes nothing else.
pub proof fn lemma_deposit_adds_its_amount(
    state: ClientView,
    tx: TransactionView,
    entry: Option<int>,
)
    requires
        !state.locked,
        tx.tx_type == TransactionType::Deposit,
        tx.amount is Some,
        transition(state, tx, entry).result is Ok,
    ensures
        transition(state, tx, entry).state == (ClientView {
            available: state.available + tx.amount->0,
            total: state.total + tx.amount->0,
            ..state
        }),
        !transition(state, tx, entry).settles,
{
}

/// A withdrawal that the available funds cover and that is applied to an
/// open account takes exactly its amount from `available` and from `total`,
/// and changes nothing else.
pub proof fn lemma_withdrawal_takes_its_amount(
    state: ClientView,
    tx: TransactionView,
    entry: Option<int>,
)
    requires
        !state.locked,
        tx.tx_type == TransactionType::Withdrawal,
        tx.amount is Some,
        tx.amount->0 <= state.available,
        transition(state, tx, entry).result is Ok,
    ensures
        transition(state, tx, entry).state == (ClientView {
            available: state.available - tx.amount->0,
            total: state.total - tx.amount->0,
            ..state
        }),
        !transition(state, tx, entry).settles,
{
}

/// No transaction disturbs `available + held == total`: a dispute and a
/// resolve move funds between `available` and `held`, a chargeback takes the
/// same amount from `held` and from `total`.
pub proof fn lemma_transition_keeps_balance(
    state: ClientView,
    tx: TransactionView,
    entry: Option<int>,
)
    requires
        state.balanced(),
    ensures
        transition(state, tx, entry).state.balanced(),
{
}

/// No transaction changes whose account it is.
pub proof fn lemma_transition_keeps_client(
    state: ClientView,
    tx: TransactionView,
    entry: Option<int>,
)
    ensures
        transition(state, tx, entry).state.client == state.client,
{
}

/// A transaction that is ignored changes nothing and is no error.
pub proof fn lemma_ignored_changes_nothing(
    state: ClientView,
    tx: TransactionView,
    entry: Option<int>,
)
    requires
        ignored(state, tx, entry) is Some,
    ensures
        transition(state, tx, entry) == unchanged(state, Ok(())),
{
}

/// A withdrawal of more than is available changes nothing and is no error.
pub proof fn lemma_overdraft_changes_nothing(
    state: ClientView,
    tx: TransactionView,
    entry: Option<int>,
)
    requires
        tx.tx_type == TransactionType::Withdrawal,
        tx.amount is Some,
        tx.amount->0 > state.available,
    ensures
        transition(state, tx, entry) == unchanged(state, Ok(())),
{
}

/// A dispute, resolve or chargeback that refers to no registered deposit
/// changes nothing and is no error.
pub proof fn lemma_unknown_reference_changes_nothing(state: ClientView, tx: TransactionView)
    requires
        tx.tx_type == TransactionType::Dispute || tx.tx_type == TransactionType::Resolve
            || tx.tx_type == TransactionType::Chargeback,
    ensures
        transition(state, tx, None) == unchanged(state, Ok(())),
{
}

/// A locked account ignores every transaction.
pub proof fn lemma_locked_account_changes_nothing(
    state: ClientView,
    tx: TransactionView,
    entry: Option<int>,
)
    requires
        state.locked,
    ensures
        transition(state, tx, entry) == unchanged(state, Ok(())),
{
}

/// An account is locked by a chargeback that is applied, and by nothing
/// else; once locked it stays locked.
pub proof fn lemma_only_chargeback_locks(
    state: ClientView,
    tx: TransactionView,
    entry: Option<int>,
)
    ensures
        state.locked ==> transition(state, tx, entry).state.locked,
        !state.locked && transition(state, tx, entry).state.locked ==> tx.tx_type
            == TransactionType::Chargeback && entry is Some,
{
}

/// A resolve settles its deposit: the same resolve, applied once more to
/// what the first left, changes neither the account nor the registry.
pub proof fn lemma_second_resolve_changes_nothing(
    state: ClientView,
    tx: TransactionView,
    registry: Map<ClientTx, int>,
)
    requires
        tx.tx_type == TransactionType::Resolve,
    ensures
        ({
            let first = transition(state, tx, lookup(registry, tx.key()));
            let after = settled(registry, tx.key(), first);
            let second = transition(first.state, tx, lookup(after, tx.key()));
            &&& second.state == first.state
            &&& settled(after, tx.key(), second) == after
            &&& second.result == first.result
        }),
{
}

} // verus!
