//! Registry and bank behaviour: rate registration, base-currency policy,
//! sorted listings, account management, and currency conversion.

use bankcore::bank::{convert_amount, Bank};
use bankcore::forex::Forex;
use bankcore::BankError;

fn seeded_forex() -> Forex {
    Forex::new()
        .create_currency("PHP", "Philippine Peso", 10_000)
        .create_currency("USD", "US Dollar", 581_130)
        .create_currency("JPY", "Japanese Yen", 3_865)
        .create_currency("GBP", "British Pound", 780_632)
        .create_currency("EUR", "Euro", 677_598)
        .create_currency("CNY", "Chinese Yuan", 81_531)
        .set_base_rate("PHP")
}

fn seeded_bank() -> Bank {
    Bank::new()
        .set_forex(seeded_forex())
        .set_annual_interest(500)
        .set_base_currency("PHP")
        .build()
}

#[test]
fn register_then_get_rate_round_trips() {
    let forex = Forex::new().create_currency("USD", "US Dollar", 581_130);
    assert_eq!(forex.get_rate("USD"), Some(581_130));
}

#[test]
fn get_rate_on_unknown_code_is_none() {
    let forex = seeded_forex();
    assert_eq!(forex.get_rate("XXX"), None);
}

#[test]
fn reregistering_a_code_replaces_the_record() {
    let forex = seeded_forex().create_currency("USD", "US Dollar", 600_000);
    assert_eq!(forex.get_rate("USD"), Some(600_000));
    assert_eq!(forex.currencies_detailed().len(), 6);
}

#[test]
fn set_rate_overwrites_an_existing_rate() {
    let mut forex = seeded_forex();
    forex.set_rate("USD", 590_000);
    assert_eq!(forex.get_rate("USD"), Some(590_000));
}

#[test]
fn set_rate_on_base_currency_is_a_no_op() {
    let mut forex = seeded_forex();
    forex.set_rate("PHP", 999);
    assert_eq!(forex.get_rate("PHP"), Some(10_000));
}

#[test]
fn set_rate_on_unknown_code_inserts_a_placeholder() {
    let mut forex = seeded_forex();
    forex.set_rate("KRW", 77);
    assert_eq!(forex.get_rate("KRW"), Some(77));
    let listed = forex.currencies_detailed();
    let found = listed.iter().find(|c| c.code == "KRW").unwrap();
    assert_eq!(found.name, "KRW");
    assert_eq!(found.rate, 77);
}

#[test]
fn create_rate_names_the_currency_after_its_code() {
    let forex = Forex::new().create_rate("CHF", 72_000);
    assert_eq!(forex.get_rate("CHF"), Some(72_000));
    let listed = forex.currencies_detailed();
    assert_eq!(listed.len(), 1);
    assert_eq!(listed[0].name, "CHF");
}

#[test]
fn find_currency_returns_the_full_record() {
    let forex = seeded_forex();
    let usd = forex.find_currency("USD").unwrap();
    assert_eq!(usd.code, "USD");
    assert_eq!(usd.name, "US Dollar");
    assert_eq!(usd.rate, 581_130);
    assert!(forex.find_currency("XXX").is_none());
}

#[test]
fn listings_are_sorted_by_code() {
    let forex = seeded_forex();
    let codes = forex.currencies();
    assert_eq!(codes, vec!["CNY", "EUR", "GBP", "JPY", "PHP", "USD"]);
    let detailed = forex.currencies_detailed();
    let detailed_codes: Vec<&str> = detailed.iter().map(|c| c.code.as_str()).collect();
    assert_eq!(detailed_codes, vec!["CNY", "EUR", "GBP", "JPY", "PHP", "USD"]);
}

#[test]
fn base_rate_code_is_kept() {
    let forex = seeded_forex();
    assert_eq!(forex.get_base_rate(), "PHP");
}

#[test]
fn bank_build_resolves_base_currency_from_registry() {
    let bank = seeded_bank();
    assert_eq!(bank.base_currency.code, "PHP");
    assert_eq!(bank.base_currency.name, "Philippine Peso");
    assert_eq!(bank.base_currency.rate, 10_000);
}

#[test]
fn bank_build_falls_back_to_forex_base_code() {
    let bank = Bank::new().set_forex(seeded_forex()).build();
    assert_eq!(bank.base_currency.code, "PHP");
    assert_eq!(bank.base_currency.rate, 10_000);
}

#[test]
fn bank_without_any_base_keeps_the_empty_sentinel() {
    let bank = Bank::new().build();
    assert_eq!(bank.base_currency.code, "");
}

#[test]
fn unregistered_base_code_gets_a_unit_placeholder() {
    let bank = Bank::new().set_forex(seeded_forex()).set_base_currency("XAU").build();
    assert_eq!(bank.base_currency.code, "XAU");
    assert_eq!(bank.base_currency.name, "XAU");
    assert_eq!(bank.base_currency.rate, 10_000);
}

#[test]
fn identity_conversion_returns_the_amount() {
    let bank = seeded_bank();
    assert_eq!(convert_amount(&bank, "USD", "USD", 1_000_000), Ok(1_000_000));
    assert_eq!(convert_amount(&bank, "JPY", "JPY", 123_456), Ok(123_456));
}

#[test]
fn conversion_matches_reference_rates() {
    // 100 USD at 58.1130 pesos per dollar is exactly 5811.30 pesos,
    // and converting it back returns exactly 100 dollars.
    let bank = seeded_bank();
    assert_eq!(
        convert_amount(&bank, "USD", "PHP", 1_000_000),
        Ok(58_113_000)
    );
    assert_eq!(
        convert_amount(&bank, "PHP", "USD", 58_113_000),
        Ok(1_000_000)
    );
}

#[test]
fn conversion_with_unknown_code_is_refused() {
    let bank = seeded_bank();
    assert_eq!(
        convert_amount(&bank, "XXX", "PHP", 1_000_000),
        Err(BankError::MissingRate)
    );
    assert_eq!(
        convert_amount(&bank, "PHP", "XXX", 1_000_000),
        Err(BankError::MissingRate)
    );
}

#[test]
fn conversion_into_zero_rate_is_refused() {
    let bank = Bank::new().set_forex(
        seeded_forex().create_currency("ZRO", "Zero Rated", 0),
    );
    assert_eq!(
        convert_amount(&bank, "USD", "ZRO", 1_000_000),
        Err(BankError::ZeroRate)
    );
    assert_eq!(convert_amount(&bank, "ZRO", "USD", 581_130), Ok(0));
}

#[test]
fn conversion_of_negative_amount_is_refused() {
    let bank = seeded_bank();
    assert_eq!(
        convert_amount(&bank, "USD", "PHP", -1),
        Err(BankError::InvalidAmount)
    );
}

#[test]
fn conversion_beyond_range_is_refused() {
    let bank = Bank::new().set_forex(
        Forex::new()
            .create_currency("BIG", "Big Rate", 1_000_000_000)
            .create_currency("ONE", "Tiny Rate", 1),
    );
    assert_eq!(
        convert_amount(&bank, "BIG", "ONE", 4_000_000_000_000_000_000),
        Err(BankError::AmountOutOfRange)
    );
}

#[test]
fn accounts_are_created_with_the_bank_default_interest() {
    let mut bank = seeded_bank();
    assert!(bank.create_account("alice").is_ok());
    let idx = bank.find_account_mut("alice").unwrap();
    assert_eq!(bank.accounts[idx].annual_interest, 500);
}

#[test]
fn duplicate_account_names_are_refused() {
    let mut bank = seeded_bank();
    assert!(bank.create_account("alice").is_ok());
    assert_eq!(
        bank.create_account("alice"),
        Err(BankError::DuplicateAccount)
    );
    assert_eq!(bank.accounts.len(), 1);
}

#[test]
fn missing_accounts_are_reported() {
    let mut bank = seeded_bank();
    assert_eq!(bank.find_account_mut("nobody"), None);
    assert_eq!(
        bank.deposit("nobody", 1_000_000),
        Err(BankError::AccountNotFound)
    );
    assert_eq!(bank.get_balance("nobody"), Err(BankError::AccountNotFound));
}

#[test]
fn bank_deposit_withdraw_and_balance_work_by_name() {
    let mut bank = seeded_bank();
    assert!(bank.create_account("alice").is_ok());
    assert!(bank.deposit("alice", 10_000_000).is_ok());
    assert!(bank.withdraw("alice", 2_500_000).is_ok());
    assert_eq!(bank.get_balance("alice"), Ok(7_500_000));
}

#[test]
fn overdraft_through_the_bank_leaves_state_unchanged() {
    let mut bank = seeded_bank();
    assert!(bank.create_account("alice").is_ok());
    assert!(bank.deposit("alice", 1_000_000).is_ok());
    assert_eq!(
        bank.withdraw("alice", 9_000_000),
        Err(BankError::InsufficientFunds)
    );
    assert_eq!(bank.get_balance("alice"), Ok(1_000_000));
    let idx = bank.find_account_mut("alice").unwrap();
    assert_eq!(bank.accounts[idx].transactions.len(), 1);
}

#[test]
fn bank_forecast_matches_the_account_forecast() {
    let mut bank = seeded_bank();
    assert!(bank.create_account("alice").is_ok());
    assert!(bank.deposit("alice", 10_000_000).is_ok());
    let forecast = bank.get_interest_forecast("alice", 1).unwrap();
    assert_eq!(forecast.len(), 1);
    assert_eq!(forecast[0].interest, 1370);
    assert_eq!(forecast[0].balance, 10_001_370);
}
