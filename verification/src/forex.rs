//! The currency-rate registry: a catalog of currency records, kept sorted
//! by code, together with the designated base-currency code.
//!
//! Every rate is the fixed-point price of one unit of the currency in the
//! base currency, so the base currency itself is an ordinary record with
//! rate `SCALE` (that is, 1). Policy choices, enforced by the contracts:
//! - `set_rate` on the base-currency code changes nothing;
//! - `set_rate` on any other registered code overwrites the stored rate,
//!   and on an unknown code inserts a placeholder record so the update is
//!   not lost.

use crate::lex::{
    lemma_lex_connected, lemma_lex_irreflexive, lemma_lex_transitive, lex_lt, str_eq, str_lt,
};
use vstd::prelude::*;

verus! {

/// Currency record: a short code such as `"USD"`, a display name, and the
/// fixed-point price of one unit in the base currency.
#[derive(Debug)]
pub struct Currency {
    pub code: String,
    pub name: String,
    pub rate: u64,
}

impl Clone for Currency {
    fn clone(&self) -> (r: Currency)
        ensures
            r == *self,
    {
        Currency { code: self.code.clone(), name: self.name.clone(), rate: self.rate }
    }
}

/// Mathematical model of one currency record.
pub ghost struct CurrencyInfo {
    pub code: Seq<char>,
    pub name: Seq<char>,
    pub rate: u64,
}

impl View for Currency {
    type V = CurrencyInfo;

    open spec fn view(&self) -> CurrencyInfo {
        CurrencyInfo { code: self.code@, name: self.name@, rate: self.rate }
    }
}

/// Mathematical model of the registry: the catalog in its stored (sorted)
/// order, and the base-currency code.
pub ghost struct ForexInfo {
    pub catalog: Seq<CurrencyInfo>,
    pub base: Seq<char>,
}

/// In-memory registry of currencies and conversion-rate calculator.
#[derive(Debug)]
pub struct Forex {
    catalog: Vec<Currency>,
    base_currency: String,
}

impl View for Forex {
    type V = ForexInfo;

    closed spec fn view(&self) -> ForexInfo {
        ForexInfo {
            catalog: self.catalog@.map(|i: int, c: Currency| c@),
            base: self.base_currency@,
        }
    }
}

/// First record of the catalog whose code is `code`, if any.
pub open spec fn lookup(catalog: Seq<CurrencyInfo>, code: Seq<char>) -> Option<CurrencyInfo>
    decreases catalog.len(),
{
    if catalog.len() == 0 {
        None
    } else if catalog[0].code == code {
        Some(catalog[0])
    } else {
        lookup(catalog.drop_first(), code)
    }
}

/// The stored rate for `code`, if the code is registered.
pub open spec fn rate_lookup(catalog: Seq<CurrencyInfo>, code: Seq<char>) -> Option<u64> {
    match lookup(catalog, code) {
        Some(c) => Some(c.rate),
        None => None,
    }
}

/// Codes strictly increasing in lexicographic order; this also makes every
/// code unique.
pub open spec fn sorted_by_code(catalog: Seq<CurrencyInfo>) -> bool {
    forall|i: int, j: int|
        0 <= i < j < catalog.len() ==> lex_lt(
            #[trigger] catalog[i].code,
            #[trigger] catalog[j].code,
        )
}

/// Relation between registry states before and after registering one
/// currency: the new record is found under its code, every other code
/// resolves as before, and the base code is unchanged.
pub open spec fn registers(
    pre: ForexInfo,
    post: ForexInfo,
    code: Seq<char>,
    name: Seq<char>,
    rate: u64,
) -> bool {
    &&& post.base == pre.base
    &&& lookup(post.catalog, code) == Some(CurrencyInfo { code, name, rate })
    &&& forall|other: Seq<char>|
        other != code ==> lookup(post.catalog, other) == lookup(pre.catalog, other)
}

/// Law: registering a currency and immediately asking for its rate returns
/// exactly the rate that was registered.
pub proof fn lemma_register_round_trip(
    pre: ForexInfo,
    post: ForexInfo,
    code: Seq<char>,
    name: Seq<char>,
    rate: u64,
)
    requires
        registers(pre, post, code, name, rate),
    ensures
        rate_lookup(post.catalog, code) == Some(rate),
{
}

/// A sorted catalog stays sorted when its first record is dropped.
proof fn lemma_sorted_drop_first(catalog: Seq<CurrencyInfo>)
    requires
        sorted_by_code(catalog),
        catalog.len() > 0,
    ensures
        sorted_by_code(catalog.drop_first()),
{
    assert forall|i: int, j: int| 0 <= i < j < catalog.drop_first().len() implies lex_lt(
        #[trigger] catalog.drop_first()[i].code,
        #[trigger] catalog.drop_first()[j].code,
    ) by {
        assert(catalog.drop_first()[i] == catalog[i + 1]);
        assert(catalog.drop_first()[j] == catalog[j + 1]);
    }
}

/// In a sorted catalog, the record at any index is found under its code.
pub proof fn lemma_lookup_at_index(catalog: Seq<CurrencyInfo>, i: int)
    requires
        sorted_by_code(catalog),
        0 <= i < catalog.len(),
    ensures
        lookup(catalog, catalog[i].code) == Some(catalog[i]),
    decreases catalog.len(),
{
    if i > 0 {
        assert(lex_lt(catalog[0].code, catalog[i].code));
        if catalog[0].code == catalog[i].code {
            lemma_lex_irreflexive(catalog[0].code);
        }
        lemma_sorted_drop_first(catalog);
        lemma_lookup_at_index(catalog.drop_first(), i - 1);
    }
}

/// A code held by no record is not found.
pub proof fn lemma_lookup_absent(catalog: Seq<CurrencyInfo>, code: Seq<char>)
    requires
        forall|i: int| 0 <= i < catalog.len() ==> (#[trigger] catalog[i]).code != code,
    ensures
        lookup(catalog, code) is None,
    decreases catalog.len(),
{
    if catalog.len() > 0 {
        lemma_lookup_absent(catalog.drop_first(), code);
    }
}

/// Replacing a record by one with the same code leaves every other code's
/// resolution unchanged.
proof fn lemma_lookup_update_other(
    catalog: Seq<CurrencyInfo>,
    pos: int,
    record: CurrencyInfo,
    other: Seq<char>,
)
    requires
        0 <= pos < catalog.len(),
        catalog[pos].code == record.code,
        other != record.code,
    ensures
        lookup(catalog.update(pos, record), other) == lookup(catalog, other),
    decreases catalog.len(),
{
    let updated = catalog.update(pos, record);
    if pos == 0 {
        assert(updated.drop_first() =~= catalog.drop_first());
    } else {
        assert(updated[0] == catalog[0]);
        assert(updated.drop_first() =~= catalog.drop_first().update(pos - 1, record));
        if catalog[0].code != other {
            lemma_lookup_update_other(catalog.drop_first(), pos - 1, record, other);
        }
    }
}

/// Inserting a record leaves every other code's resolution unchanged.
proof fn lemma_lookup_insert_other(
    catalog: Seq<CurrencyInfo>,
    pos: int,
    record: CurrencyInfo,
    other: Seq<char>,
)
    requires
        0 <= pos <= catalog.len(),
        other != record.code,
    ensures
        lookup(catalog.insert(pos, record), other) == lookup(catalog, other),
    decreases pos,
{
    let inserted = catalog.insert(pos, record);
    if pos == 0 {
        assert(inserted[0] == record);
        assert(inserted.drop_first() =~= catalog);
    } else {
        assert(inserted[0] == catalog[0]);
        assert(inserted.drop_first() =~= catalog.drop_first().insert(pos - 1, record));
        if catalog[0].code != other {
            lemma_lookup_insert_other(catalog.drop_first(), pos - 1, record, other);
        }
    }
}

/// All codes on or after the lower-bound position of `code` differ from it.
proof fn lemma_all_codes_differ(catalog: Seq<CurrencyInfo>, code: Seq<char>, pos: int)
    requires
        sorted_by_code(catalog),
        0 <= pos <= catalog.len(),
        forall|j: int| 0 <= j < pos ==> lex_lt((#[trigger] catalog[j]).code, code),
        pos < catalog.len() ==> lex_lt(code, catalog[pos].code),
    ensures
        forall|i: int| 0 <= i < catalog.len() ==> (#[trigger] catalog[i]).code != code,
{
    assert forall|i: int| 0 <= i < catalog.len() implies (#[trigger] catalog[i]).code != code by {
        if i < pos {
            if catalog[i].code == code {
                lemma_lex_irreflexive(code);
            }
        } else {
            if i > pos {
                lemma_lex_transitive(code, catalog[pos].code, catalog[i].code);
            }
            if catalog[i].code == code {
                lemma_lex_irreflexive(code);
            }
        }
    }
}

/// Finds the lower-bound position of `code` in a sorted catalog: every
/// record before it has a smaller code, and the record at it (if any) does
/// not.
fn find_position(catalog: &Vec<Currency>, code: &str) -> (pos: usize)
    requires
        sorted_by_code(catalog@.map(|i: int, c: Currency| c@)),
    ensures
        pos <= catalog@.len(),
        forall|j: int| 0 <= j < pos ==> lex_lt((#[trigger] catalog@[j])@.code, code@),
        pos < catalog@.len() ==> !lex_lt(catalog@[pos as int]@.code, code@),
{
    let n = catalog.len();
    let mut pos: usize = 0;
    loop
        invariant
            pos <= n,
            n == catalog@.len(),
            forall|j: int| 0 <= j < pos ==> lex_lt((#[trigger] catalog@[j])@.code, code@),
        ensures
            pos <= n,
            forall|j: int| 0 <= j < pos ==> lex_lt((#[trigger] catalog@[j])@.code, code@),
            pos < n ==> !lex_lt(catalog@[pos as int]@.code, code@),
        decreases n - pos,
    {
        if pos == n {
            break ;
        }
        if !str_lt(catalog[pos].code.as_str(), code) {
            break ;
        }
        pos = pos + 1;
    }
    pos
}

impl Forex {
    /// The registry invariant: the catalog is sorted strictly by code.
    pub open spec fn wf(self) -> bool {
        sorted_by_code(self@.catalog)
    }

    /// An empty registry with no base currency chosen.
    pub fn new() -> (r: Forex)
        ensures
            r@.catalog == Seq::<CurrencyInfo>::empty(),
            r@.base == Seq::<char>::empty(),
            r.wf(),
    {
        let r = Forex { catalog: Vec::new(), base_currency: String::new() };
        proof {
            assert(r@.catalog =~= Seq::<CurrencyInfo>::empty());
        }
        r
    }

    /// Registers a currency under `code`, inserting a new record or
    /// replacing the existing one whole.
    pub fn create_currency(self, code: &str, name: &str, rate: u64) -> (r: Forex)
        requires
            self.wf(),
        ensures
            r.wf(),
            registers(self@, r@, code@, name@, rate),
    {
        let mut this = self;
        let record = Currency { code: code.to_owned(), name: name.to_owned(), rate };
        let ghost cat0 = this@.catalog;
        let pos = find_position(&this.catalog, code);
        let n = this.catalog.len();
        if pos < n && str_eq(this.catalog[pos].code.as_str(), code) {
            this.catalog[pos] = record;
            proof {
                lemma_replace_ok(cat0, pos as int, record@);
                assert(this@.catalog =~= cat0.update(pos as int, record@));
            }
        } else {
            proof {
                if pos < n {
                    lemma_lex_connected_at(cat0, pos as int, code@);
                }
                lemma_insert_ok(cat0, pos as int, record@);
            }
            this.catalog.insert(pos, record);
            proof {
                assert(this@.catalog =~= cat0.insert(pos as int, record@));
            }
        }
        this
    }

    /// Updates the rate stored for `code`. The base currency's rate is
    /// never changed; any other registered code has its rate overwritten,
    /// and an unknown code gets a placeholder record named after the code.
    pub fn set_rate(&mut self, code: &str, rate: u64)
        requires
            old(self).wf(),
        ensures
            final(self).wf(),
            final(self)@.base == old(self)@.base,
            code@ == old(self)@.base ==> *final(self) == *old(self),
            code@ != old(self)@.base ==> match lookup(old(self)@.catalog, code@) {
                Some(c) => lookup(final(self)@.catalog, code@) == Some(
                    CurrencyInfo { code: code@, name: c.name, rate },
                ),
                None => lookup(final(self)@.catalog, code@) == Some(
                    CurrencyInfo { code: code@, name: code@, rate },
                ),
            },
            code@ != old(self)@.base ==> forall|other: Seq<char>|
                other != code@ ==> lookup(final(self)@.catalog, other) == lookup(
                    old(self)@.catalog,
                    other,
                ),
    {
        if str_eq(code, self.base_currency.as_str()) {
            return ;
        }
        let ghost cat0 = self@.catalog;
        let pos = find_position(&self.catalog, code);
        let n = self.catalog.len();
        if pos < n && str_eq(self.catalog[pos].code.as_str(), code) {
            let record = Currency {
                code: self.catalog[pos].code.clone(),
                name: self.catalog[pos].name.clone(),
                rate,
            };
            proof {
                lemma_lookup_at_index(cat0, pos as int);
                lemma_replace_ok(cat0, pos as int, record@);
            }
            self.catalog[pos] = record;
            proof {
                assert(self@.catalog =~= cat0.update(pos as int, record@));
            }
        } else {
            let record = Currency { code: code.to_owned(), name: code.to_owned(), rate };
            proof {
                if pos < n {
                    lemma_lex_connected_at(cat0, pos as int, code@);
                }
                lemma_all_codes_differ(cat0, code@, pos as int);
                lemma_lookup_absent(cat0, code@);
                lemma_insert_ok(cat0, pos as int, record@);
            }
            self.catalog.insert(pos, record);
            proof {
                assert(self@.catalog =~= cat0.insert(pos as int, record@));
            }
        }
    }

    /// The stored rate for `code`, or `None` if the code is unregistered.
    /// Never derives or inverts a rate.
    pub fn get_rate(&self, code: &str) -> (r: Option<u64>)
        requires
            self.wf(),
        ensures
            r == rate_lookup(self@.catalog, code@),
    {
        let pos = find_position(&self.catalog, code);
        let n = self.catalog.len();
        if pos < n && str_eq(self.catalog[pos].code.as_str(), code) {
            proof {
                lemma_lookup_at_index(self@.catalog, pos as int);
            }
            Some(self.catalog[pos].rate)
        } else {
            proof {
                if pos < n {
                    lemma_lex_connected_at(self@.catalog, pos as int, code@);
                }
                lemma_all_codes_differ(self@.catalog, code@, pos as int);
                lemma_lookup_absent(self@.catalog, code@);
            }
            None
        }
    }

    /// Registers a rate for `code` without a separate display name: the
    /// code doubles as the name.
    pub fn create_rate(self, currency: &str, rate: u64) -> (r: Forex)
        requires
            self.wf(),
        ensures
            r.wf(),
            registers(self@, r@, currency@, currency@, rate),
    {
        self.create_currency(currency, currency, rate)
    }

    /// A copy of the full record registered under `code`, if any.
    pub fn find_currency(&self, code: &str) -> (r: Option<Currency>)
        requires
            self.wf(),
        ensures
            r is Some <==> lookup(self@.catalog, code@) is Some,
            r is Some ==> r.unwrap()@ == lookup(self@.catalog, code@).unwrap(),
    {
        let pos = find_position(&self.catalog, code);
        let n = self.catalog.len();
        if pos < n && str_eq(self.catalog[pos].code.as_str(), code) {
            proof {
                lemma_lookup_at_index(self@.catalog, pos as int);
            }
            Some(self.catalog[pos].clone())
        } else {
            proof {
                if pos < n {
                    lemma_lex_connected_at(self@.catalog, pos as int, code@);
                }
                lemma_all_codes_differ(self@.catalog, code@, pos as int);
                lemma_lookup_absent(self@.catalog, code@);
            }
            None
        }
    }

    /// Chooses the base-currency code; the catalog is unchanged.
    pub fn set_base_rate(self, code: &str) -> (r: Forex)
        ensures
            r@.catalog == self@.catalog,
            r@.base == code@,
            self.wf() ==> r.wf(),
    {
        Forex { catalog: self.catalog, base_currency: code.to_owned() }
    }

    /// The current base-currency code.
    pub fn get_base_rate(&self) -> (r: &str)
        ensures
            r@ == self@.base,
    {
        self.base_currency.as_str()
    }

    /// All registered currencies in ascending code order (the stored
    /// order, by the registry invariant).
    pub fn currencies_detailed(&self) -> (r: Vec<Currency>)
        requires
            self.wf(),
        ensures
            r@.map(|i: int, c: Currency| c@) == self@.catalog,
    {
        let mut list: Vec<Currency> = Vec::new();
        let n = self.catalog.len();
        let mut i: usize = 0;
        while i < n
            invariant
                i <= n,
                n == self.catalog@.len(),
                list@.len() == i,
                forall|j: int| 0 <= j < i ==> #[trigger] list@[j] == self.catalog@[j],
            decreases n - i,
        {
            list.push(self.catalog[i].clone());
            i = i + 1;
        }
        proof {
            assert(list@.map(|i: int, c: Currency| c@) =~= self@.catalog);
        }
        list
    }

    /// All registered codes in ascending order.
    pub fn currencies(&self) -> (r: Vec<String>)
        requires
            self.wf(),
        ensures
            r@.len() == self@.catalog.len(),
            forall|j: int| 0 <= j < r@.len() ==> (#[trigger] r@[j])@ == self@.catalog[j].code,
    {
        let mut list: Vec<String> = Vec::new();
        let n = self.catalog.len();
        let mut i: usize = 0;
        while i < n
            invariant
                i <= n,
                n == self.catalog@.len(),
                list@.len() == i,
                forall|j: int| 0 <= j < i ==> (#[trigger] list@[j])@ == self@.catalog[j].code,
            decreases n - i,
        {
            list.push(self.catalog[i].code.clone());
            i = i + 1;
        }
        list
    }
}

/// At the lower-bound position, a code that does not equal the record's
/// code must come strictly before it.
proof fn lemma_lex_connected_at(catalog: Seq<CurrencyInfo>, pos: int, code: Seq<char>)
    requires
        0 <= pos < catalog.len(),
        !lex_lt(catalog[pos].code, code),
        catalog[pos].code != code,
    ensures
        lex_lt(code, catalog[pos].code),
{
    if !lex_lt(code, catalog[pos].code) {
        lemma_lex_connected(catalog[pos].code, code);
    }
}

/// Replacing the record at `pos` by one with the same code keeps the
/// catalog sorted, finds the new record under that code, and leaves every
/// other code's resolution unchanged.
proof fn lemma_replace_ok(catalog: Seq<CurrencyInfo>, pos: int, record: CurrencyInfo)
    requires
        sorted_by_code(catalog),
        0 <= pos < catalog.len(),
        catalog[pos].code == record.code,
    ensures
        sorted_by_code(catalog.update(pos, record)),
        lookup(catalog.update(pos, record), record.code) == Some(record),
        forall|other: Seq<char>|
            other != record.code ==> lookup(catalog.update(pos, record), other) == lookup(
                catalog,
                other,
            ),
{
    let updated = catalog.update(pos, record);
    assert forall|i: int, j: int| 0 <= i < j < updated.len() implies lex_lt(
        #[trigger] updated[i].code,
        #[trigger] updated[j].code,
    ) by {
        assert(updated[i].code == catalog[i].code);
        assert(updated[j].code == catalog[j].code);
    }
    lemma_lookup_at_index(updated, pos);
    assert forall|other: Seq<char>| other != record.code implies lookup(updated, other) == lookup(
        catalog,
        other,
    ) by {
        lemma_lookup_update_other(catalog, pos, record, other);
    }
}

/// Inserting a record at its lower-bound position keeps the catalog
/// sorted, finds the record under its code, and leaves every other code's
/// resolution unchanged.
proof fn lemma_insert_ok(catalog: Seq<CurrencyInfo>, pos: int, record: CurrencyInfo)
    requires
        sorted_by_code(catalog),
        0 <= pos <= catalog.len(),
        forall|j: int| 0 <= j < pos ==> lex_lt((#[trigger] catalog[j]).code, record.code),
        pos < catalog.len() ==> lex_lt(record.code, catalog[pos].code),
    ensures
        sorted_by_code(catalog.insert(pos, record)),
        lookup(catalog.insert(pos, record), record.code) == Some(record),
        forall|other: Seq<char>|
            other != record.code ==> lookup(catalog.insert(pos, record), other) == lookup(
                catalog,
                other,
            ),
{
    let inserted = catalog.insert(pos, record);
    assert forall|i: int, j: int| 0 <= i < j < inserted.len() implies lex_lt(
        #[trigger] inserted[i].code,
        #[trigger] inserted[j].code,
    ) by {
        if j < pos {
            assert(inserted[i] == catalog[i] && inserted[j] == catalog[j]);
        } else if j == pos {
            assert(inserted[i] == catalog[i]);
        } else if i < pos {
            assert(inserted[i] == catalog[i] && inserted[j] == catalog[j - 1]);
            assert(i < j - 1 || j - 1 == pos);
            if j - 1 == pos && pos < catalog.len() {
                assert(lex_lt(catalog[i].code, catalog[j - 1].code));
            }
        } else if i == pos {
            assert(inserted[i] == record && inserted[j] == catalog[j - 1]);
            if j - 1 > pos {
                lemma_lex_transitive(record.code, catalog[pos].code, catalog[j - 1].code);
            }
        } else {
            assert(inserted[i] == catalog[i - 1] && inserted[j] == catalog[j - 1]);
        }
    }
    lemma_lookup_at_index(inserted, pos);
    assert forall|other: Seq<char>| other != record.code implies lookup(inserted, other) == lookup(
        catalog,
        other,
    ) by {
        lemma_lookup_insert_other(catalog, pos, record, other);
    }
}

} // verus!
