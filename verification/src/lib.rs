//! A deterministic ledger engine.
//!
//! The engine takes deposits, withdrawals, disputes, resolutions and
//! chargebacks, one at a time and in order, and keeps the balances of every
//! client's account. Money is counted in ten-thousandths of a unit, so that
//! every sum is exact.
//!
//! - [`amount`]: the fixed-point [`amount::Amount`], read from and written to
//!   text;
//! - [`decimal`]: decimal digit strings and the numbers they denote;
//! - [`types`]: transactions, accounts and errors;
//! - [`model`]: the ledger as a mathematical state machine, with the laws
//!   that hold of it;
//! - [`processor`]: the engine itself, proved to move as the model says;
//! - [`csv_utils`]: the rows that come in and go out.

pub mod amount;
pub mod csv_utils;
pub mod decimal;
pub mod model;
pub mod processor;
pub mod types;
