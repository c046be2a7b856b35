//! The bank orchestrator: a rate registry, a bank-wide default interest
//! fraction, a resolved base currency, and the collection of account
//! ledgers, with currency conversion as a pure function of two looked-up
//! rates.
//!
//! Policy choices, enforced by the contracts:
//! - account names are unique; creating a duplicate is refused with
//!   `DuplicateAccount`;
//! - each account receives the bank's default interest fraction at
//!   creation time, and later changes to the default do not affect it;
//! - conversion uses `amount * rate(src) / rate(dst)`, rounding half up,
//!   and is refused with `MissingRate` when either code is unregistered.

use crate::account::{
    balance_of, daily_gain, forecast_balance, forecast_fits, transaction_result, Account,
    AccountInfo, InterestForecast, TransactionType,
};
use crate::fixed::{lemma_scaled_identity, mul_div_round, scaled_mul_div, SCALE};
use crate::forex::{lookup, Currency, CurrencyInfo, Forex, ForexInfo};
use crate::lex::str_eq;
use crate::BankError;
use vstd::prelude::*;

verus! {

/// Mathematical model of the whole bank.
pub ghost struct BankInfo {
    pub forex: ForexInfo,
    pub annual_interest: u64,
    pub base: CurrencyInfo,
    pub accounts: Seq<AccountInfo>,
}

/// Top-level aggregate owning the registry, the configuration, and the
/// accounts.
#[derive(Debug)]
pub struct Bank {
    pub forex: Forex,
    pub annual_interest: u64,
    pub base_currency: Currency,
    pub accounts: Vec<Account>,
}

impl View for Bank {
    type V = BankInfo;

    open spec fn view(&self) -> BankInfo {
        BankInfo {
            forex: self.forex@,
            annual_interest: self.annual_interest,
            base: self.base_currency@,
            accounts: self.accounts@.map(|i: int, a: Account| a@),
        }
    }
}

/// Index of the first account with the given name, if any.
pub open spec fn find_named(accounts: Seq<AccountInfo>, name: Seq<char>) -> Option<int>
    decreases accounts.len(),
{
    if accounts.len() == 0 {
        None
    } else if accounts[0].name == name {
        Some(0int)
    } else {
        match find_named(accounts.drop_first(), name) {
            Some(i) => Some(i + 1),
            None => None,
        }
    }
}

/// `find_named` returns the position reached by a first-match scan: the
/// first index whose name matches, or nothing when the scan ran out.
proof fn lemma_find_named_at(accounts: Seq<AccountInfo>, name: Seq<char>, i: int)
    requires
        0 <= i <= accounts.len(),
        forall|j: int| 0 <= j < i ==> (#[trigger] accounts[j]).name != name,
        i < accounts.len() ==> accounts[i].name == name,
    ensures
        find_named(accounts, name) == if i == accounts.len() {
            None::<int>
        } else {
            Some(i)
        },
    decreases accounts.len(),
{
    if accounts.len() > 0 {
        if accounts[0].name == name {
            assert(i == 0);
        } else {
            assert(accounts[0].name != name);
            assert(i > 0 || i == accounts.len());
            let rest = accounts.drop_first();
            if i == 0 {
                lemma_find_named_at(rest, name, rest.len() as int);
            } else {
                assert forall|j: int| 0 <= j < i - 1 implies (#[trigger] rest[j]).name != name by {
                    assert(rest[j] == accounts[j + 1]);
                }
                lemma_find_named_at(rest, name, i - 1);
            }
        }
    }
}

/// Result of converting `amount` from `src` to `dst` over the catalog:
/// `amount * rate(src) / rate(dst)`, rounded half up, or the error that
/// refuses the conversion.
pub open spec fn convert_result(
    catalog: Seq<CurrencyInfo>,
    src: Seq<char>,
    dst: Seq<char>,
    amount: i64,
) -> Result<i64, BankError> {
    match (lookup(catalog, src), lookup(catalog, dst)) {
        (Some(s), Some(d)) => if amount < 0 {
            Err(BankError::InvalidAmount)
        } else if d.rate == 0 {
            Err(BankError::ZeroRate)
        } else if scaled_mul_div(amount as int, s.rate as int, d.rate as int) > i64::MAX {
            Err(BankError::AmountOutOfRange)
        } else {
            Ok(scaled_mul_div(amount as int, s.rate as int, d.rate as int) as i64)
        },
        _ => Err(BankError::MissingRate),
    }
}

/// Law: converting a nonnegative amount from a registered currency with a
/// positive rate to itself returns the amount unchanged.
pub proof fn lemma_convert_identity(catalog: Seq<CurrencyInfo>, code: Seq<char>, amount: i64)
    requires
        amount >= 0,
        lookup(catalog, code) is Some,
        lookup(catalog, code).unwrap().rate > 0,
    ensures
        convert_result(catalog, code, code, amount) == Ok::<i64, BankError>(amount),
{
    let rate = lookup(catalog, code).unwrap().rate;
    lemma_scaled_identity(amount as int, rate as int);
}

/// Converts `amount` from `src_code` to `dst_code` using the bank's
/// registry: `amount * rate(src) / rate(dst)`, rounded half up.
pub fn convert_amount(bank: &Bank, src_code: &str, dst_code: &str, amount: i64) -> (r: Result<
    i64,
    BankError,
>)
    requires
        bank.wf(),
    ensures
        r == convert_result(bank@.forex.catalog, src_code@, dst_code@, amount),
{
    let src_rate = match bank.forex.get_rate(src_code) {
        Some(x) => x,
        None => {
            return Err(BankError::MissingRate);
        },
    };
    let dst_rate = match bank.forex.get_rate(dst_code) {
        Some(x) => x,
        None => {
            return Err(BankError::MissingRate);
        },
    };
    if amount < 0 {
        return Err(BankError::InvalidAmount);
    }
    if dst_rate == 0 {
        return Err(BankError::ZeroRate);
    }
    match mul_div_round(amount, src_rate, dst_rate) {
        Some(v) => Ok(v),
        None => Err(BankError::AmountOutOfRange),
    }
}

/// Index of the first account named `name`, scanning in storage order.
fn find_index(accounts: &Vec<Account>, name: &str) -> (r: Option<usize>)
    ensures
        ({
            let found = find_named(accounts@.map(|i: int, a: Account| a@), name@);
            match r {
                Some(u) => found == Some(u as int) && u < accounts@.len(),
                None => found is None,
            }
        }),
{
    let ghost model = accounts@.map(|i: int, a: Account| a@);
    let n = accounts.len();
    let mut i: usize = 0;
    while i < n
        invariant
            i <= n,
            n == accounts@.len(),
            model == accounts@.map(|i: int, a: Account| a@),
            forall|j: int| 0 <= j < i ==> (#[trigger] model[j]).name != name@,
        decreases n - i,
    {
        if str_eq(accounts[i].name.as_str(), name) {
            proof {
                lemma_find_named_at(model, name@, i as int);
            }
            return Some(i);
        }
        i = i + 1;
    }
    proof {
        lemma_find_named_at(model, name@, n as int);
    }
    None
}

impl Bank {
    /// The bank invariant: the registry is well formed, the default
    /// interest fraction is at most 100% per year, and every ledger is
    /// well formed.
    pub open spec fn wf(self) -> bool {
        &&& self.forex.wf()
        &&& self.annual_interest <= SCALE
        &&& forall|i: int| 0 <= i < self.accounts@.len() ==> (#[trigger] self.accounts@[i]).wf()
    }

    /// A bank with an empty registry, the default 5% interest fraction, an
    /// unset (empty-code) base currency, and no accounts. Callers must
    /// treat an empty base code as "unset".
    pub fn new() -> (r: Bank)
        ensures
            r@.forex.catalog == Seq::<CurrencyInfo>::empty(),
            r@.forex.base == Seq::<char>::empty(),
            r@.annual_interest == crate::account::DEFAULT_ANNUAL_INTEREST,
            r@.base.code == Seq::<char>::empty(),
            r@.base.name == Seq::<char>::empty(),
            r@.base.rate == 0,
            r@.accounts == Seq::<AccountInfo>::empty(),
            r.wf(),
    {
        let r = Bank {
            forex: Forex::new(),
            annual_interest: crate::account::DEFAULT_ANNUAL_INTEREST,
            base_currency: Currency { code: String::new(), name: String::new(), rate: 0 },
            accounts: Vec::new(),
        };
        proof {
            assert(r@.accounts =~= Seq::<AccountInfo>::empty());
        }
        r
    }

    /// Replaces the registry; the other configuration is kept.
    pub fn set_forex(self, forex: Forex) -> (r: Bank)
        requires
            forex.wf(),
    ensures
            r@.forex == forex@,
            r@.annual_interest == self@.annual_interest,
            r@.base == self@.base,
            r@.accounts == self@.accounts,
            self.wf() ==> r.wf(),
    {
        Bank { forex, ..self }
    }

    /// Replaces the bank-wide default annual interest fraction, which may
    /// not exceed 100% per year. Existing accounts keep their fraction.
    pub fn set_annual_interest(self, rate: u64) -> (r: Bank)
        requires
            rate <= SCALE,
        ensures
            r@.annual_interest == rate,
            r@.forex == self@.forex,
            r@.base == self@.base,
            r@.accounts == self@.accounts,
            self.wf() ==> r.wf(),
    {
        Bank { annual_interest: rate, ..self }
    }

    /// Chooses the base currency by code: the registered record if the
    /// code is known, otherwise a placeholder named after the code with
    /// rate 1 (that is, `SCALE`).
    pub fn set_base_currency(self, code: &str) -> (r: Bank)
        requires
            self.wf(),
        ensures
            r@.base == match lookup(self@.forex.catalog, code@) {
                Some(c) => c,
                None => CurrencyInfo { code: code@, name: code@, rate: SCALE },
            },
            r@.forex == self@.forex,
            r@.annual_interest == self@.annual_interest,
            r@.accounts == self@.accounts,
            r.wf(),
    {
        let base_currency = match self.forex.find_currency(code) {
            Some(c) => c,
            None => Currency { code: code.to_owned(), name: code.to_owned(), rate: SCALE },
        };
        Bank { base_currency, ..self }
    }

    /// Finalizes construction: if no base currency was chosen yet (its
    /// code is empty) and the registry names a base code, resolve that
    /// code the same way `set_base_currency` does; otherwise keep
    /// everything as it is.
    pub fn build(self) -> (r: Bank)
        requires
            self.wf(),
        ensures
            r@.forex == self@.forex,
            r@.annual_interest == self@.annual_interest,
            r@.accounts == self@.accounts,
            r@.base == if self@.base.code.len() == 0 && self@.forex.base.len() != 0 {
                match lookup(self@.forex.catalog, self@.forex.base) {
                    Some(c) => c,
                    None => CurrencyInfo {
                        code: self@.forex.base,
                        name: self@.forex.base,
                        rate: SCALE,
                    },
                }
            } else {
                self@.base
            },
            r.wf(),
    {
        if !self.base_currency.code.as_str().is_empty() {
            return self;
        }
        let base_code = self.forex.get_base_rate().to_owned();
        if base_code.as_str().is_empty() {
            return self;
        }
        self.set_base_currency(base_code.as_str())
    }

    /// Creates an account named `name` with the bank's current default
    /// interest fraction, refusing duplicate names.
    pub fn create_account(&mut self, name: &str) -> (r: Result<(), BankError>)
        requires
            old(self).wf(),
        ensures
            final(self).wf(),
            final(self)@.forex == old(self)@.forex,
            final(self)@.annual_interest == old(self)@.annual_interest,
            final(self)@.base == old(self)@.base,
            match find_named(old(self)@.accounts, name@) {
                Some(_) => r == Err::<(), BankError>(BankError::DuplicateAccount) && final(self)@
                    == old(self)@,
                None => r is Ok && final(self)@.accounts == old(self)@.accounts.push(
                    AccountInfo {
                        name: name@,
                        values: Seq::<i64>::empty(),
                        annual_interest: old(self)@.annual_interest,
                    },
                ),
            },
    {
        match find_index(&self.accounts, name) {
            Some(_) => Err(BankError::DuplicateAccount),
            None => {
                let acct = Account::new(name).with_interest(self.annual_interest);
                self.accounts.push(acct);
                proof {
                    assert(self@.accounts =~= old(self)@.accounts.push(
                        AccountInfo {
                            name: name@,
                            values: Seq::<i64>::empty(),
                            annual_interest: old(self)@.annual_interest,
                        },
                    ));
                }
                Ok(())
            },
        }
    }

    /// Index of the first account named `name`, or `None` if absent.
    /// Callers hand the index to the deposit, withdrawal, balance, and
    /// forecast operations.
    pub fn find_account_mut(&self, name: &str) -> (r: Option<usize>)
        ensures
            ({
                let found = find_named(self@.accounts, name@);
                match r {
                    Some(u) => found == Some(u as int) && u < self@.accounts.len(),
                    None => found is None,
                }
            }),
    {
        find_index(&self.accounts, name)
    }

    /// Applies one transaction to the account named `name`, leaving every
    /// part of the bank untouched when the transaction is refused.
    fn transact(&mut self, name: &str, tx_type: TransactionType, amount: i64) -> (r: Result<
        (),
        BankError,
    >)
        requires
            old(self).wf(),
        ensures
            final(self).wf(),
            final(self)@.forex == old(self)@.forex,
            final(self)@.annual_interest == old(self)@.annual_interest,
            final(self)@.base == old(self)@.base,
            match find_named(old(self)@.accounts, name@) {
                None => r == Err::<(), BankError>(BankError::AccountNotFound) && final(self)@
                    == old(self)@,
                Some(i) => match transaction_result(old(self)@.accounts[i].values, tx_type, amount) {
                    Ok(v) => r is Ok && final(self)@.accounts == old(self)@.accounts.update(
                        i,
                        AccountInfo {
                            values: old(self)@.accounts[i].values.push(v),
                            ..old(self)@.accounts[i]
                        },
                    ),
                    Err(e) => r == Err::<(), BankError>(e) && final(self)@ == old(self)@,
                },
            },
    {
        let idx = match find_index(&self.accounts, name) {
            Some(i) => i,
            None => {
                return Err(BankError::AccountNotFound);
            },
        };
        let acct = &mut self.accounts[idx];
        let res = acct.create_transaction(tx_type, amount);
        proof {
            assert(self@.accounts =~= old(self)@.accounts.update(idx as int, self.accounts@[
                idx as int
            ]@));
            if res is Err {
                assert(self@.accounts =~= old(self)@.accounts);
            }
        }
        res
    }

    /// Deposits `amount` into the account named `name`.
    pub fn deposit(&mut self, name: &str, amount: i64) -> (r: Result<(), BankError>)
        requires
            old(self).wf(),
        ensures
            final(self).wf(),
            final(self)@.forex == old(self)@.forex,
            final(self)@.annual_interest == old(self)@.annual_interest,
            final(self)@.base == old(self)@.base,
            match find_named(old(self)@.accounts, name@) {
                None => r == Err::<(), BankError>(BankError::AccountNotFound) && final(self)@
                    == old(self)@,
                Some(i) => match transaction_result(
                    old(self)@.accounts[i].values,
                    TransactionType::Deposit,
                    amount,
                ) {
                    Ok(v) => r is Ok && final(self)@.accounts == old(self)@.accounts.update(
                        i,
                        AccountInfo {
                            values: old(self)@.accounts[i].values.push(v),
                            ..old(self)@.accounts[i]
                        },
                    ),
                    Err(e) => r == Err::<(), BankError>(e) && final(self)@ == old(self)@,
                },
            },
    {
        self.transact(name, TransactionType::Deposit, amount)
    }

    /// Withdraws `amount` from the account named `name`, refusing
    /// overdrafts with `InsufficientFunds` and leaving the ledger as it
    /// was.
    pub fn withdraw(&mut self, name: &str, amount: i64) -> (r: Result<(), BankError>)
        requires
            old(self).wf(),
        ensures
            final(self).wf(),
            final(self)@.forex == old(self)@.forex,
            final(self)@.annual_interest == old(self)@.annual_interest,
            final(self)@.base == old(self)@.base,
            match find_named(old(self)@.accounts, name@) {
                None => r == Err::<(), BankError>(BankError::AccountNotFound) && final(self)@
                    == old(self)@,
                Some(i) => match transaction_result(
                    old(self)@.accounts[i].values,
                    TransactionType::Withdraw,
                    amount,
                ) {
                    Ok(v) => r is Ok && final(self)@.accounts == old(self)@.accounts.update(
                        i,
                        AccountInfo {
                            values: old(self)@.accounts[i].values.push(v),
                            ..old(self)@.accounts[i]
                        },
                    ),
                    Err(e) => r == Err::<(), BankError>(e) && final(self)@ == old(self)@,
                },
            },
    {
        self.transact(name, TransactionType::Withdraw, amount)
    }

    /// Balance of the account named `name`.
    pub fn get_balance(&self, name: &str) -> (r: Result<i64, BankError>)
        requires
            self.wf(),
        ensures
            match find_named(self@.accounts, name@) {
                None => r == Err::<i64, BankError>(BankError::AccountNotFound),
                Some(i) => r == Ok::<i64, BankError>(
                    balance_of(self@.accounts[i].values) as i64,
                ),
            },
    {
        match find_index(&self.accounts, name) {
            Some(i) => Ok(self.accounts[i].get_balance()),
            None => Err(BankError::AccountNotFound),
        }
    }

    /// Day-by-day interest projection for the account named `name`, as
    /// `Account::get_interest_forecast` computes it.
    pub fn get_interest_forecast(&self, name: &str, days: usize) -> (r: Result<
        Vec<InterestForecast>,
        BankError,
    >)
        requires
            self.wf(),
        ensures
            match find_named(self@.accounts, name@) {
                None => r == Err::<Vec<InterestForecast>, BankError>(BankError::AccountNotFound),
                Some(i) => ({
                    let start = balance_of(self@.accounts[i].values);
                    let annual = self@.accounts[i].annual_interest as int;
                    match r {
                        Ok(v) => forecast_fits(start, annual, days as int) && v@.len() == days
                            && forall|d: int|
                            0 <= d < days ==> (#[trigger] v@[d]).day == d + 1 && v@[d].interest
                                == daily_gain(forecast_balance(start, annual, d), annual)
                                && v@[d].balance == forecast_balance(start, annual, d + 1),
                        Err(e) => e == BankError::AmountOutOfRange && !forecast_fits(
                            start,
                            annual,
                            days as int,
                        ),
                    }
                }),
            },
    {
        match find_index(&self.accounts, name) {
            Some(i) => self.accounts[i].get_interest_forecast(days),
            None => Err(BankError::AccountNotFound),
        }
    }
}

} // verus!
