//! The account ledger: an append-only transaction history, its running
//! balance, and a daily-compounding interest forecast.
//!
//! Policy choices, stated once and enforced by the contracts:
//! - a withdrawal that exceeds the balance is refused with
//!   `InsufficientFunds` and leaves the ledger untouched;
//! - a non-positive amount is refused with `InvalidAmount`;
//! - the balance therefore never goes negative, and every prefix of the
//!   history has a balance in `[0, i64::MAX]`.

use crate::fixed::{lemma_scaled_nonneg, mul_div_round, scaled_mul_div, SCALE};
use crate::BankError;
use vstd::arithmetic::div_mod::lemma_multiply_divide_le;
use vstd::prelude::*;
use vstd::seq_lib::*;

verus! {

/// Kind of ledger entry: a deposit stores `+amount`, a withdrawal `-amount`.
#[derive(Debug, Clone, Copy, PartialEq, Eq, Structural)]
pub enum TransactionType {
    Deposit,
    Withdraw,
}

/// Immutable signed fixed-point value applied to the account balance.
#[derive(Debug, Clone, Copy, PartialEq, Eq, Structural)]
pub struct Transaction {
    pub value: i64,
}

/// One day of a compound-interest projection: the 1-based day index, the
/// interest accrued that day, and the balance after it was credited.
#[derive(Debug, Clone, Copy, PartialEq, Eq, Structural)]
pub struct InterestForecast {
    pub day: usize,
    pub balance: i64,
    pub interest: i64,
}

/// Mathematical model of an account: its name, the signed transaction
/// values in chronological order, and its annual interest fraction.
pub ghost struct AccountInfo {
    pub name: Seq<char>,
    pub values: Seq<i64>,
    pub annual_interest: u64,
}

/// Per-account ledger. `annual_interest` is a fixed-point fraction
/// (`500` means 5% per year) fixed when the account is created.
#[derive(Debug)]
pub struct Account {
    pub name: String,
    pub transactions: Vec<Transaction>,
    pub annual_interest: u64,
}

impl View for Account {
    type V = AccountInfo;

    open spec fn view(&self) -> AccountInfo {
        AccountInfo {
            name: self.name@,
            values: self.transactions@.map(|i: int, t: Transaction| t.value),
            annual_interest: self.annual_interest,
        }
    }
}

/// Annual interest fraction used by `Account::new`: 5% per year.
pub const DEFAULT_ANNUAL_INTEREST: u64 = 500;

/// Denominator of one day's interest: `balance * annual_interest` is
/// divided by `365 * SCALE`, rounding half up.
pub const DAILY_DENOM: u64 = 365 * SCALE;

/// Balance of a transaction history: the exact sum of its signed values.
pub open spec fn balance_of(values: Seq<i64>) -> int
    decreases values.len(),
{
    if values.len() == 0 {
        0
    } else {
        balance_of(values.drop_last()) + values.last()
    }
}

/// A history every prefix of which keeps the balance in `[0, i64::MAX]`.
/// Histories built through `create_transaction` always satisfy this.
pub open spec fn wf_history(values: Seq<i64>) -> bool {
    forall|i: int|
        0 <= i <= values.len() ==> 0 <= balance_of(#[trigger] values.take(i)) <= i64::MAX
}

/// Interest credited for one day on `balance` at the fixed-point annual
/// fraction `annual_interest`, rounding half up.
pub open spec fn daily_gain(balance: int, annual_interest: int) -> int {
    scaled_mul_div(balance, annual_interest, DAILY_DENOM as int)
}

/// Balance after `day` days of compounding: each day's gain is computed on
/// the running balance and credited before the next day.
pub open spec fn forecast_balance(start: int, annual_interest: int, day: int) -> int
    decreases day,
{
    if day <= 0 {
        start
    } else {
        let prev = forecast_balance(start, annual_interest, day - 1);
        prev + daily_gain(prev, annual_interest)
    }
}

/// Every balance of the first `days` days of the projection fits in `i64`.
pub open spec fn forecast_fits(start: int, annual_interest: int, days: int) -> bool {
    forall|d: int|
        1 <= d <= days ==> #[trigger] forecast_balance(start, annual_interest, d) <= i64::MAX
}

/// Outcome of appending a transaction to a history: either the signed value
/// to record, or the error that refuses it.
pub open spec fn transaction_result(
    values: Seq<i64>,
    tx_type: TransactionType,
    amount: i64,
) -> Result<i64, BankError> {
    if amount <= 0 {
        Err(BankError::InvalidAmount)
    } else if tx_type is Withdraw {
        if amount > balance_of(values) {
            Err(BankError::InsufficientFunds)
        } else {
            Ok((-(amount as int)) as i64)
        }
    } else {
        if balance_of(values) + amount > i64::MAX {
            Err(BankError::AmountOutOfRange)
        } else {
            Ok(amount)
        }
    }
}

/// Appending one value adds it to the balance.
pub proof fn lemma_balance_push(values: Seq<i64>, v: i64)
    ensures
        balance_of(values.push(v)) == balance_of(values) + v,
{
    assert(values.push(v).drop_last() =~= values);
}

/// Removing the value at position `i` subtracts it from the balance.
pub proof fn lemma_balance_remove(values: Seq<i64>, i: int)
    requires
        0 <= i < values.len(),
    ensures
        balance_of(values) == balance_of(values.remove(i)) + values[i],
    decreases values.len(),
{
    if i == values.len() - 1 {
        assert(values.remove(i) =~= values.drop_last());
    } else {
        let shorter = values.drop_last();
        lemma_balance_remove(shorter, i);
        assert(values.remove(i).drop_last() =~= shorter.remove(i));
        assert(values.remove(i).last() == values.last());
    }
}

/// The balance depends only on which values the history holds, not on
/// their order: any reordering of the same deposits and withdrawals yields
/// the same balance.
pub proof fn lemma_balance_reorder(a: Seq<i64>, b: Seq<i64>)
    requires
        a.to_multiset() == b.to_multiset(),
    ensures
        balance_of(a) == balance_of(b),
    decreases a.len(),
{
    broadcast use group_to_multiset_ensures;

    if a.len() == 0 {
        assert(b.to_multiset().len() == 0);
    } else {
        let x = a.last();
        let rest = a.drop_last();
        assert(a =~= rest.push(x));
        assert(a.to_multiset() =~= rest.to_multiset().insert(x));
        assert(b.to_multiset().count(x) > 0);
        assert(b.contains(x));
        let j = choose|j: int| 0 <= j < b.len() && b[j] == x;
        lemma_balance_remove(b, j);
        assert(b.remove(j).to_multiset() =~= b.to_multiset().remove(x));
        assert(rest.to_multiset() =~= b.remove(j).to_multiset());
        lemma_balance_reorder(rest, b.remove(j));
    }
}

/// A history stays well formed when the appended value keeps the new
/// balance in range.
proof fn lemma_wf_push(values: Seq<i64>, v: i64)
    requires
        wf_history(values),
        0 <= balance_of(values) + v <= i64::MAX,
    ensures
        wf_history(values.push(v)),
{
    lemma_balance_push(values, v);
    assert forall|i: int|
        0 <= i <= values.len() + 1 implies 0 <= balance_of(
        #[trigger] values.push(v).take(i),
    ) <= i64::MAX by {
        if i <= values.len() {
            assert(values.push(v).take(i) =~= values.take(i));
        } else {
            assert(values.push(v).take(i) =~= values.push(v));
            assert(values.take(values.len() as int) =~= values);
        }
    }
}

/// One day's gain on an in-range balance at a fraction of at most 100% per
/// year is nonnegative and fits in `i64`.
pub proof fn lemma_daily_gain_fits(balance: int, annual_interest: int)
    requires
        0 <= balance <= i64::MAX,
        0 <= annual_interest <= SCALE,
    ensures
        0 <= daily_gain(balance, annual_interest) <= i64::MAX,
{
    lemma_scaled_nonneg(balance, annual_interest, DAILY_DENOM as int);
    assert(balance * annual_interest <= (i64::MAX as int) * (SCALE as int)) by (nonlinear_arith)
        requires
            0 <= balance <= i64::MAX,
            0 <= annual_interest <= SCALE,
    ;
    assert((i64::MAX as int) * (SCALE as int) + (DAILY_DENOM as int) / 2 <= (DAILY_DENOM as int) * (
    i64::MAX as int));
    lemma_multiply_divide_le(
        balance * annual_interest + (DAILY_DENOM as int) / 2,
        DAILY_DENOM as int,
        i64::MAX as int,
    );
}

impl Account {
    /// A ledger is well formed when every prefix balance is in range and
    /// its annual interest fraction is at most 100% per year (`SCALE`).
    pub open spec fn wf(self) -> bool {
        wf_history(self@.values) && self.annual_interest <= SCALE
    }

    /// Creates an empty account with the default 5% annual interest.
    pub fn new(name: &str) -> (r: Account)
        ensures
            r@.name == name@,
            r@.values == Seq::<i64>::empty(),
            r@.annual_interest == DEFAULT_ANNUAL_INTEREST,
            r.wf(),
    {
        let r = Account {
            name: name.to_owned(),
            transactions: Vec::new(),
            annual_interest: DEFAULT_ANNUAL_INTEREST,
        };
        proof {
            assert(r@.values =~= Seq::<i64>::empty());
            assert forall|i: int| 0 <= i <= 0 implies 0 <= balance_of(
                #[trigger] r@.values.take(i),
            ) <= i64::MAX by {
                assert(r@.values.take(i) =~= Seq::<i64>::empty());
            }
        }
        r
    }

    /// Replaces the annual interest fraction, keeping name and history.
    /// The fraction may not exceed 100% per year, so that a day's interest
    /// always fits in the fixed-point range.
    pub fn with_interest(self, annual_interest: u64) -> (r: Account)
        requires
            annual_interest <= SCALE,
        ensures
            r@.name == self@.name,
            r@.values == self@.values,
            r@.annual_interest == annual_interest,
            wf_history(self@.values) ==> r.wf(),
    {
        Account { annual_interest, ..self }
    }

    /// Appends a deposit or withdrawal of `amount` (which must be
    /// positive), refusing overdrafts and out-of-range balances without
    /// touching the ledger.
    pub fn create_transaction(&mut self, tx_type: TransactionType, amount: i64) -> (r: Result<
        (),
        BankError,
    >)
        requires
            old(self).wf(),
        ensures
            final(self).wf(),
            match transaction_result(old(self)@.values, tx_type, amount) {
                Ok(v) => r is Ok
                    && final(self)@.name == old(self)@.name
                    && final(self)@.annual_interest == old(self)@.annual_interest
                    && final(self)@.values == old(self)@.values.push(v),
                Err(e) => r == Err::<(), BankError>(e) && *final(self) == *old(self),
            },
    {
        if amount <= 0 {
            return Err(BankError::InvalidAmount);
        }
        let balance = self.get_balance();
        let value: i64 = match tx_type {
            TransactionType::Deposit => {
                if balance > i64::MAX - amount {
                    return Err(BankError::AmountOutOfRange);
                }
                amount
            },
            TransactionType::Withdraw => {
                if amount > balance {
                    return Err(BankError::InsufficientFunds);
                }
                -amount
            },
        };
        proof {
            lemma_wf_push(self@.values, value);
        }
        self.transactions.push(Transaction { value });
        proof {
            assert(self@.values =~= old(self)@.values.push(value));
        }
        Ok(())
    }

    /// The current balance: the exact sum of all signed transaction values.
    /// An account with no transactions has balance zero.
    pub fn get_balance(&self) -> (r: i64)
        requires
            self.wf(),
        ensures
            r == balance_of(self@.values),
            r >= 0,
    {
        let ghost values = self@.values;
        let mut total: i64 = 0;
        let n = self.transactions.len();
        proof {
            assert(values.take(0) =~= Seq::<i64>::empty());
        }
        let mut i: usize = 0;
        while i < n
            invariant
                0 <= i <= n,
                n == self.transactions@.len(),
                values == self@.values,
                wf_history(values),
                total == balance_of(values.take(i as int)),
            decreases n - i,
        {
            proof {
                assert(values.take(i + 1).drop_last() =~= values.take(i as int));
                assert(values.take(i + 1).last() == values[i as int]);
            }
            total = total + self.transactions[i].value;
            i = i + 1;
        }
        proof {
            assert(values.take(n as int) =~= values);
        }
        total
    }

    /// Interest the balance would earn in one day at this account's rate.
    pub fn get_daily_interest(&self) -> (r: i64)
        requires
            self.wf(),
        ensures
            r == daily_gain(balance_of(self@.values), self@.annual_interest as int),
    {
        let balance = self.get_balance();
        proof {
            lemma_daily_gain_fits(balance as int, self.annual_interest as int);
        }
        mul_div_round(balance, self.annual_interest, DAILY_DENOM).unwrap()
    }

    /// Day-by-day compounding projection over `days` days: day `d` (1-based)
    /// earns `daily_gain` on the running balance, which is credited before
    /// day `d + 1`. Returns one record per day, or `AmountOutOfRange` when
    /// some day's balance would leave the fixed-point range.
    pub fn get_interest_forecast(&self, days: usize) -> (r: Result<
        Vec<InterestForecast>,
        BankError,
    >)
        requires
            self.wf(),
        ensures
            ({
                let start = balance_of(self@.values);
                let annual = self@.annual_interest as int;
                match r {
                    Ok(v) => forecast_fits(start, annual, days as int) && v@.len() == days
                        && forall|d: int|
                        0 <= d < days ==> (#[trigger] v@[d]).day == d + 1 && v@[d].interest
                            == daily_gain(forecast_balance(start, annual, d), annual) && v@[d].balance
                            == forecast_balance(start, annual, d + 1),
                    Err(e) => e == BankError::AmountOutOfRange && !forecast_fits(
                        start,
                        annual,
                        days as int,
                    ),
                }
            }),
    {
        let ghost start = balance_of(self@.values);
        let ghost annual = self@.annual_interest as int;
        let mut out: Vec<InterestForecast> = Vec::new();
        let mut balance = self.get_balance();
        let mut day: usize = 0;
        while day < days
            invariant
                0 <= day <= days,
                self.annual_interest <= SCALE,
                annual == self@.annual_interest as int,
                start == balance_of(self@.values),
                self.wf(),
                balance == forecast_balance(start, annual, day as int),
                0 <= balance,
                forecast_fits(start, annual, day as int),
                out@.len() == day,
                forall|d: int|
                    0 <= d < day ==> (#[trigger] out@[d]).day == d + 1 && out@[d].interest
                        == daily_gain(forecast_balance(start, annual, d), annual) && out@[d].balance
                        == forecast_balance(start, annual, d + 1),
            decreases days - day,
        {
            proof {
                lemma_daily_gain_fits(balance as int, annual);
            }
            let gain = mul_div_round(balance, self.annual_interest, DAILY_DENOM).unwrap();
            if balance > i64::MAX - gain {
                proof {
                    assert(forecast_balance(start, annual, day + 1) > i64::MAX);
                }
                return Err(BankError::AmountOutOfRange);
            }
            let new_balance = balance + gain;
            day = day + 1;
            out.push(
                InterestForecast { day, balance: new_balance, interest: gain },
            );
            balance = new_balance;
        }
        Ok(out)
    }
}

} // verus!
