//! Ledger behaviour: balances, transaction policy, interest forecasts, and
//! the decimal text form. Fixed-point values carry four decimal places, so
//! `10_000_000` is 1000.0000 units.

use bankcore::account::{Account, TransactionType};
use bankcore::text::{parse_fixed, round_to_cents};
use bankcore::BankError;

#[test]
fn new_account_has_zero_balance_and_default_interest() {
    let acct = Account::new("alice");
    assert_eq!(acct.get_balance(), 0);
    assert_eq!(acct.annual_interest, 500);
    assert_eq!(acct.name, "alice");
    assert!(acct.transactions.is_empty());
}

#[test]
fn deposit_and_withdraw_update_balance_exactly() {
    let mut acct = Account::new("alice");
    assert!(acct.create_transaction(TransactionType::Deposit, 10_000_000).is_ok());
    assert!(acct.create_transaction(TransactionType::Withdraw, 3_000_000).is_ok());
    assert!(acct.create_transaction(TransactionType::Deposit, 5_000_000).is_ok());
    assert_eq!(acct.get_balance(), 12_000_000);
    assert_eq!(acct.transactions.len(), 3);
    assert_eq!(acct.transactions[0].value, 10_000_000);
    assert_eq!(acct.transactions[1].value, -3_000_000);
    assert_eq!(acct.transactions[2].value, 5_000_000);
}

#[test]
fn interleaving_order_does_not_change_final_balance() {
    let mut a = Account::new("a");
    assert!(a.create_transaction(TransactionType::Deposit, 10_000_000).is_ok());
    assert!(a.create_transaction(TransactionType::Withdraw, 3_000_000).is_ok());
    assert!(a.create_transaction(TransactionType::Deposit, 5_000_000).is_ok());

    let mut b = Account::new("b");
    assert!(b.create_transaction(TransactionType::Deposit, 5_000_000).is_ok());
    assert!(b.create_transaction(TransactionType::Deposit, 10_000_000).is_ok());
    assert!(b.create_transaction(TransactionType::Withdraw, 3_000_000).is_ok());

    assert_eq!(a.get_balance(), b.get_balance());
}

#[test]
fn non_positive_amounts_are_refused() {
    let mut acct = Account::new("alice");
    assert_eq!(
        acct.create_transaction(TransactionType::Deposit, 0),
        Err(BankError::InvalidAmount)
    );
    assert_eq!(
        acct.create_transaction(TransactionType::Withdraw, -5),
        Err(BankError::InvalidAmount)
    );
    assert_eq!(acct.get_balance(), 0);
}

#[test]
fn overdraft_is_refused_and_ledger_untouched() {
    let mut acct = Account::new("alice");
    assert!(acct.create_transaction(TransactionType::Deposit, 1_000_000).is_ok());
    assert_eq!(
        acct.create_transaction(TransactionType::Withdraw, 1_000_001),
        Err(BankError::InsufficientFunds)
    );
    assert_eq!(acct.get_balance(), 1_000_000);
    assert_eq!(acct.transactions.len(), 1);
}

#[test]
fn deposit_beyond_range_is_refused() {
    let mut acct = Account::new("alice");
    assert!(acct.create_transaction(TransactionType::Deposit, i64::MAX).is_ok());
    assert_eq!(
        acct.create_transaction(TransactionType::Deposit, 1),
        Err(BankError::AmountOutOfRange)
    );
    assert_eq!(acct.get_balance(), i64::MAX);
}

#[test]
fn forecast_of_zero_days_is_empty() {
    let mut acct = Account::new("alice");
    assert!(acct.create_transaction(TransactionType::Deposit, 10_000_000).is_ok());
    let forecast = acct.get_interest_forecast(0).unwrap();
    assert!(forecast.is_empty());
}

#[test]
fn forecast_day_indices_count_from_one() {
    let mut acct = Account::new("alice");
    assert!(acct.create_transaction(TransactionType::Deposit, 10_000_000).is_ok());
    let forecast = acct.get_interest_forecast(5).unwrap();
    assert_eq!(forecast.len(), 5);
    for (i, record) in forecast.iter().enumerate() {
        assert_eq!(record.day, i + 1);
    }
}

#[test]
fn forecast_first_day_matches_hand_computation() {
    // 1000.0000 at 5% a year: day one earns
    // round(10_000_000 * 500 / 3_650_000) = 1370, that is 0.1370.
    let mut acct = Account::new("alice");
    assert!(acct.create_transaction(TransactionType::Deposit, 10_000_000).is_ok());
    let forecast = acct.get_interest_forecast(1).unwrap();
    assert_eq!(forecast.len(), 1);
    assert_eq!(forecast[0].day, 1);
    assert_eq!(forecast[0].interest, 1370);
    assert_eq!(forecast[0].balance, 10_001_370);
}

#[test]
fn forecast_compounds_daily() {
    let mut acct = Account::new("alice");
    assert!(acct.create_transaction(TransactionType::Deposit, 10_000_000).is_ok());
    let forecast = acct.get_interest_forecast(3).unwrap();
    assert_eq!(forecast[0].balance, 10_001_370);
    assert_eq!(forecast[1].interest, 1370);
    assert_eq!(forecast[1].balance, 10_002_740);
    assert_eq!(forecast[2].balance, 10_004_110);
}

#[test]
fn forecast_reports_out_of_range_balances() {
    let mut acct = Account::new("rich").with_interest(10_000);
    assert!(acct.create_transaction(TransactionType::Deposit, i64::MAX).is_ok());
    assert_eq!(
        acct.get_interest_forecast(10),
        Err(BankError::AmountOutOfRange)
    );
}

#[test]
fn daily_interest_matches_first_forecast_day() {
    let mut acct = Account::new("alice");
    assert!(acct.create_transaction(TransactionType::Deposit, 10_000_000).is_ok());
    assert_eq!(acct.get_daily_interest(), 1370);
}

#[test]
fn with_interest_sets_the_fraction() {
    let acct = Account::new("alice").with_interest(250);
    assert_eq!(acct.annual_interest, 250);
}

#[test]
fn parse_fixed_reads_plain_and_fractional_literals() {
    assert_eq!(parse_fixed("100"), Some(1_000_000));
    assert_eq!(parse_fixed("58.1130"), Some(581_130));
    assert_eq!(parse_fixed("0.05"), Some(500));
    assert_eq!(parse_fixed("1.5"), Some(15_000));
    assert_eq!(parse_fixed("0"), Some(0));
}

#[test]
fn parse_fixed_refuses_malformed_text() {
    assert_eq!(parse_fixed(""), None);
    assert_eq!(parse_fixed("."), None);
    assert_eq!(parse_fixed(".5"), None);
    assert_eq!(parse_fixed("1."), None);
    assert_eq!(parse_fixed("1.23456"), None);
    assert_eq!(parse_fixed("abc"), None);
    assert_eq!(parse_fixed("1..2"), None);
    assert_eq!(parse_fixed("-3"), None);
    assert_eq!(parse_fixed("123456789012345"), None);
}

#[test]
fn round_to_cents_rounds_half_up() {
    assert_eq!(round_to_cents(581_130), 5_811);
    assert_eq!(round_to_cents(1_370), 14);
    assert_eq!(round_to_cents(1_449), 14);
    assert_eq!(round_to_cents(1_450), 15);
    assert_eq!(round_to_cents(0), 0);
}
