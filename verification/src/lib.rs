//! In-memory banking core: account ledgers with daily-compounding interest
//! forecasts, a currency-rate registry, and a bank orchestrator that converts
//! amounts between registered currencies.
//!
//! All monetary quantities (amounts, balances, exchange rates, interest
//! fractions) are fixed-point values: integers scaled by `fixed::SCALE`
//! (10_000), so `58.1130` is stored as `581_130`. This keeps every
//! computation exact and lets each operation carry a full contract.

use vstd::prelude::*;

pub mod account;
pub mod bank;
pub mod fixed;
pub mod forex;
pub mod lex;
pub mod text;

verus! {

/// Recoverable failure conditions reported by the library.
///
/// `ZeroRate` and `AmountOutOfRange` are forced by exact integer arithmetic:
/// a conversion cannot divide by a zero rate, and results must fit in `i64`.
#[derive(Debug, Clone, Copy, PartialEq, Eq, Structural)]
pub enum BankError {
    /// A non-positive amount was supplied for a deposit or withdrawal.
    InvalidAmount,
    /// A withdrawal would have exceeded the current balance.
    InsufficientFunds,
    /// No account with the given name exists.
    AccountNotFound,
    /// A conversion or rate update referred to an unregistered currency code.
    MissingRate,
    /// An account with the given name already exists.
    DuplicateAccount,
    /// The destination currency of a conversion has a zero rate.
    ZeroRate,
    /// A result would not fit in the fixed-point range.
    AmountOutOfRange,
}

} // verus!
