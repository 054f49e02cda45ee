//! A payments engine: deposits, withdrawals, disputes, resolutions and
//! chargebacks are applied to per-client ledgers, with the clients
//! partitioned over a fixed number of independent workers.
//!
//! Every executable function carries a contract over a mathematical model
//! of the data: an amount is a whole number of ten-thousandths, an account
//! is a record of such numbers, a worker is a map of accounts with a map of
//! disputable deposits, and the engine is a function from the sequence of
//! transactions to the map of final accounts.
//!
//! - [`amount`]: exact decimal amounts, computed by `rust_decimal`.
//! - [`decimal`]: the calls into `rust_decimal`, with the contracts that
//!   are taken on trust.
//! - [`types`]: transactions, accounts, errors.
//! - [`text`] and [`parse`]: reading a transaction from a line of text.
//! - [`registry`]: the amounts of the deposits that can be disputed.
//! - [`ledger`]: the state machine of one account, and its laws.
//! - [`worker`]: the accounts of one partition of the clients.
//! - [`partition`]: routing by client, and the proof that the number of
//!   workers does not change the result.
//! - [`engine`]: the engine and its builder.

pub mod amount;
pub mod decimal;
pub mod engine;
pub mod ledger;
pub mod parse;
pub mod partition;
pub mod registry;
pub mod text;
pub mod types;
pub mod worker;
