//! The account ledger: who holds how much.

use vstd::prelude::*;
use crate::address::Address;
use crate::amount::Amount;
use crate::error::LedgerError;
use crate::msg::{
    entries_balances, entries_total, lemma_entries_failure, lemma_entries_step, InitialBalance,
};

verus! {

/// The balance that the mapping `balances` gives to `address`: an address
/// without an entry holds nothing.
pub open spec fn balance_in(balances: Map<Seq<char>, nat>, address: Seq<char>) -> nat {
    if balances.contains_key(address) {
        balances[address]
    } else {
        0
    }
}

/// `balances` after `value` was added to what `address` holds.
pub open spec fn credited(balances: Map<Seq<char>, nat>, address: Seq<char>, value: nat) -> Map<
    Seq<char>,
    nat,
> {
    balances.insert(address, balance_in(balances, address) + value)
}

/// `balances` after `value` was taken from what `address` holds.
pub open spec fn debited(balances: Map<Seq<char>, nat>, address: Seq<char>, value: nat) -> Map<
    Seq<char>,
    nat,
>
    recommends
        value <= balance_in(balances, address),
{
    balances.insert(address, (balance_in(balances, address) - value) as nat)
}

/// Whether no address stands in two rows of `rows`.
pub open spec fn distinct_rows(rows: Seq<(Seq<char>, nat)>) -> bool {
    forall|i: int, j: int|
        0 <= i < j < rows.len() ==> (#[trigger] rows[i]).0 != (#[trigger] rows[j]).0
}

/// Whether `address` stands in a row of `rows`.
pub open spec fn has_row(rows: Seq<(Seq<char>, nat)>, address: Seq<char>) -> bool {
    exists|i: int| 0 <= i < rows.len() && (#[trigger] rows[i]).0 == address
}

/// A row of `rows` in which `address` stands.
pub open spec fn row_of(rows: Seq<(Seq<char>, nat)>, address: Seq<char>) -> int {
    choose|i: int| 0 <= i < rows.len() && (#[trigger] rows[i]).0 == address
}

/// The mapping that a list of rows, each an address and what it holds,
/// stands for.
pub open spec fn rows_map(rows: Seq<(Seq<char>, nat)>) -> Map<Seq<char>, nat> {
    Map::new(
        |address: Seq<char>| has_row(rows, address),
        |address: Seq<char>| rows[row_of(rows, address)].1,
    )
}

/// The sum of what the rows hold.
pub open spec fn rows_sum(rows: Seq<(Seq<char>, nat)>) -> nat
    decreases rows.len(),
{
    if rows.len() == 0 {
        0
    } else {
        rows_sum(rows.drop_last()) + rows.last().1
    }
}

/// Whether `total` is the sum of all balances in `balances`: the accounts
/// can be listed, each once, so that what they hold adds up to `total`.
pub open spec fn sums_to(balances: Map<Seq<char>, nat>, total: nat) -> bool {
    exists|rows: Seq<(Seq<char>, nat)>|
        distinct_rows(rows) && #[trigger] rows_map(rows) == balances && rows_sum(rows) == total
}

proof fn lemma_lookup(rows: Seq<(Seq<char>, nat)>, i: int)
    requires
        distinct_rows(rows),
        0 <= i < rows.len(),
    ensures
        rows_map(rows).contains_key(rows[i].0),
        rows_map(rows)[rows[i].0] == rows[i].1,
{
    let address = rows[i].0;
    assert(has_row(rows, address));
    let k = row_of(rows, address);
    assert(k == i);
}

proof fn lemma_map_push(rows: Seq<(Seq<char>, nat)>, row: (Seq<char>, nat))
    requires
        distinct_rows(rows),
        !has_row(rows, row.0),
    ensures
        distinct_rows(rows.push(row)),
        rows_map(rows.push(row)) =~= rows_map(rows).insert(row.0, row.1),
{
    let grown = rows.push(row);
    assert forall|i: int, j: int| 0 <= i < j < grown.len() implies (#[trigger] grown[i]).0 != (
    #[trigger] grown[j]).0 by {
        if j == rows.len() {
            assert(grown[i] == rows[i]);
        } else {
            assert(grown[i] == rows[i] && grown[j] == rows[j]);
        }
    }
    assert forall|a: Seq<char>| has_row(grown, a) <==> (has_row(rows, a) || a == row.0) by {
        if has_row(grown, a) {
            let k = row_of(grown, a);
            if k < rows.len() {
                assert(rows[k].0 == a);
            }
        }
        if has_row(rows, a) {
            let k = row_of(rows, a);
            assert(grown[k].0 == a);
        }
        if a == row.0 {
            assert(grown[rows.len() as int].0 == a);
        }
    }
    assert forall|a: Seq<char>| has_row(grown, a) implies #[trigger] rows_map(grown)[a]
        == rows_map(rows).insert(row.0, row.1)[a] by {
        let k = row_of(grown, a);
        lemma_lookup(grown, k);
        if k < rows.len() {
            assert(grown[k] == rows[k]);
            lemma_lookup(rows, k);
        }
    }
}

proof fn lemma_map_update(rows: Seq<(Seq<char>, nat)>, i: int, row: (Seq<char>, nat))
    requires
        distinct_rows(rows),
        0 <= i < rows.len(),
        row.0 == rows[i].0,
    ensures
        distinct_rows(rows.update(i, row)),
        rows_map(rows.update(i, row)) =~= rows_map(rows).insert(row.0, row.1),
{
    let changed = rows.update(i, row);
    assert forall|p: int, q: int| 0 <= p < q < changed.len() implies (#[trigger] changed[p]).0 != (
    #[trigger] changed[q]).0 by {
        assert(changed[p].0 == rows[p].0);
        assert(changed[q].0 == rows[q].0);
    }
    assert forall|a: Seq<char>| has_row(changed, a) <==> has_row(rows, a) by {
        if has_row(changed, a) {
            let k = row_of(changed, a);
            assert(rows[k].0 == a);
        }
        if has_row(rows, a) {
            let k = row_of(rows, a);
            assert(changed[k].0 == a);
        }
    }
    lemma_lookup(rows, i);
    assert forall|a: Seq<char>| has_row(changed, a) implies #[trigger] rows_map(changed)[a]
        == rows_map(rows).insert(row.0, row.1)[a] by {
        let k = row_of(changed, a);
        lemma_lookup(changed, k);
        if k != i {
            assert(changed[k] == rows[k]);
            lemma_lookup(rows, k);
        }
    }
}

proof fn lemma_sum_push(rows: Seq<(Seq<char>, nat)>, row: (Seq<char>, nat))
    ensures
        rows_sum(rows.push(row)) == rows_sum(rows) + row.1,
{
    assert(rows.push(row).drop_last() =~= rows);
}

proof fn lemma_sum_update(rows: Seq<(Seq<char>, nat)>, i: int, row: (Seq<char>, nat))
    requires
        0 <= i < rows.len(),
    ensures
        rows_sum(rows.update(i, row)) + rows[i].1 == rows_sum(rows) + row.1,
    decreases rows.len(),
{
    let changed = rows.update(i, row);
    if i == rows.len() - 1 {
        assert(changed.drop_last() =~= rows.drop_last());
    } else {
        lemma_sum_update(rows.drop_last(), i, row);
        assert(changed.drop_last() =~= rows.drop_last().update(i, row));
    }
}

proof fn lemma_sum_covers(rows: Seq<(Seq<char>, nat)>, i: int, j: int)
    requires
        0 <= i < rows.len(),
        0 <= j < rows.len(),
    ensures
        rows[i].1 <= rows_sum(rows),
        i != j ==> rows[i].1 + rows[j].1 <= rows_sum(rows),
    decreases rows.len(),
{
    let last = rows.len() - 1;
    if i < last && j < last {
        lemma_sum_covers(rows.drop_last(), i, j);
    } else if i < last {
        lemma_sum_covers(rows.drop_last(), i, i);
    } else if j < last {
        lemma_sum_covers(rows.drop_last(), j, j);
    }
}

proof fn lemma_sum_remove(rows: Seq<(Seq<char>, nat)>, i: int)
    requires
        0 <= i < rows.len(),
    ensures
        rows_sum(rows.remove(i)) + rows[i].1 == rows_sum(rows),
    decreases rows.len(),
{
    if i == rows.len() - 1 {
        assert(rows.remove(i) =~= rows.drop_last());
    } else {
        lemma_sum_remove(rows.drop_last(), i);
        assert(rows.remove(i).drop_last() =~= rows.drop_last().remove(i));
        assert(rows.remove(i).last() == rows.last());
    }
}

proof fn lemma_map_remove(rows: Seq<(Seq<char>, nat)>, i: int)
    requires
        distinct_rows(rows),
        0 <= i < rows.len(),
    ensures
        distinct_rows(rows.remove(i)),
        rows_map(rows.remove(i)) =~= rows_map(rows).remove(rows[i].0),
{
    let fewer = rows.remove(i);
    let gone = rows[i].0;
    assert forall|k: int| 0 <= k < fewer.len() implies #[trigger] fewer[k] == rows[if k < i {
        k
    } else {
        k + 1
    }] by {}
    assert forall|p: int, q: int| 0 <= p < q < fewer.len() implies (#[trigger] fewer[p]).0 != (
    #[trigger] fewer[q]).0 by {
        let left = if p < i { p } else { p + 1 };
        let right = if q < i { q } else { q + 1 };
        assert(fewer[p] == rows[left] && fewer[q] == rows[right]);
    }
    assert forall|a: Seq<char>| has_row(fewer, a) <==> (has_row(rows, a) && a != gone) by {
        if has_row(fewer, a) {
            let k = row_of(fewer, a);
            let at = if k < i { k } else { k + 1 };
            assert(rows[at].0 == a);
        }
        if has_row(rows, a) && a != gone {
            let at = row_of(rows, a);
            let k = if at < i { at } else { at - 1 };
            assert(fewer[k].0 == a);
        }
    }
    assert forall|a: Seq<char>| has_row(fewer, a) implies #[trigger] rows_map(fewer)[a]
        == rows_map(rows)[a] by {
        let k = row_of(fewer, a);
        let at = if k < i { k } else { k + 1 };
        lemma_lookup(fewer, k);
        assert(fewer[k] == rows[at]);
        lemma_lookup(rows, at);
    }
}

proof fn lemma_rows_sum_unique(first: Seq<(Seq<char>, nat)>, second: Seq<(Seq<char>, nat)>)
    requires
        distinct_rows(first),
        distinct_rows(second),
        rows_map(first) == rows_map(second),
    ensures
        rows_sum(first) == rows_sum(second),
    decreases first.len(),
{
    if first.len() == 0 {
        if second.len() > 0 {
            lemma_lookup(second, 0);
            assert(rows_map(first).contains_key(second[0].0));
            assert(has_row(first, second[0].0));
        }
    } else {
        let i = first.len() - 1;
        let address = first[i].0;
        lemma_lookup(first, i);
        assert(rows_map(second).contains_key(address));
        assert(has_row(second, address));
        let j = row_of(second, address);
        lemma_lookup(second, j);
        lemma_map_remove(first, i);
        lemma_map_remove(second, j);
        lemma_sum_remove(first, i);
        lemma_sum_remove(second, j);
        lemma_rows_sum_unique(first.remove(i), second.remove(j));
    }
}

proof fn lemma_sum_prefix(rows: Seq<(Seq<char>, nat)>, k: int)
    requires
        0 <= k <= rows.len(),
    ensures
        rows_sum(rows.take(k)) <= rows_sum(rows),
        k < rows.len() ==> rows_sum(rows.take(k + 1)) == rows_sum(rows.take(k)) + rows[k].1,
    decreases rows.len(),
{
    if k == rows.len() {
        assert(rows.take(k) =~= rows);
    } else {
        lemma_sum_prefix(rows.drop_last(), k);
        assert(rows.drop_last().take(k) =~= rows.take(k));
        assert(rows.take(k + 1).drop_last() =~= rows.take(k));
    }
}

/// `rows` with the balance of `address` set to `value`.
spec fn rows_with(rows: Seq<(Seq<char>, nat)>, address: Seq<char>, value: nat) -> Seq<
    (Seq<char>, nat),
> {
    if has_row(rows, address) {
        rows.update(row_of(rows, address), (address, value))
    } else {
        rows.push((address, value))
    }
}

proof fn lemma_rows_with(rows: Seq<(Seq<char>, nat)>, address: Seq<char>, value: nat)
    requires
        distinct_rows(rows),
    ensures
        distinct_rows(rows_with(rows, address, value)),
        rows_map(rows_with(rows, address, value)) == rows_map(rows).insert(address, value),
        rows_sum(rows_with(rows, address, value)) + balance_in(rows_map(rows), address)
            == rows_sum(rows) + value,
        balance_in(rows_map(rows), address) <= rows_sum(rows),
{
    if has_row(rows, address) {
        let i = row_of(rows, address);
        lemma_lookup(rows, i);
        lemma_map_update(rows, i, (address, value));
        lemma_sum_update(rows, i, (address, value));
        lemma_sum_covers(rows, i, i);
    } else {
        lemma_map_push(rows, (address, value));
        lemma_sum_push(rows, (address, value));
    }
}

/// Nothing is held where there are no accounts.
pub proof fn lemma_sum_empty()
    ensures
        sums_to(Map::<Seq<char>, nat>::empty(), 0),
{
    let rows = Seq::<(Seq<char>, nat)>::empty();
    assert(rows_map(rows) =~= Map::<Seq<char>, nat>::empty());
}

/// The sum of all balances is one number: however the accounts are
/// listed, what they hold adds up to the same.
pub proof fn lemma_sum_unique(balances: Map<Seq<char>, nat>, total: nat, other: nat)
    requires
        sums_to(balances, total),
        sums_to(balances, other),
    ensures
        total == other,
{
    let first = choose|rows: Seq<(Seq<char>, nat)>|
        distinct_rows(rows) && #[trigger] rows_map(rows) == balances && rows_sum(rows) == total;
    let second = choose|rows: Seq<(Seq<char>, nat)>|
        distinct_rows(rows) && #[trigger] rows_map(rows) == balances && rows_sum(rows) == other;
    lemma_rows_sum_unique(first, second);
}

/// A credit raises the sum of all balances by what is credited.
pub proof fn lemma_sum_credited(
    balances: Map<Seq<char>, nat>,
    total: nat,
    address: Seq<char>,
    value: nat,
)
    requires
        sums_to(balances, total),
    ensures
        sums_to(credited(balances, address, value), total + value),
{
    let rows = choose|rows: Seq<(Seq<char>, nat)>|
        distinct_rows(rows) && #[trigger] rows_map(rows) == balances && rows_sum(rows) == total;
    let held = balance_in(balances, address);
    lemma_rows_with(rows, address, held + value);
    let after = rows_with(rows, address, held + value);
    assert(rows_map(after) == credited(balances, address, value));
}

/// A debit that the account can bear lowers the sum of all balances by
/// what is debited.
pub proof fn lemma_sum_debited(
    balances: Map<Seq<char>, nat>,
    total: nat,
    address: Seq<char>,
    value: nat,
)
    requires
        sums_to(balances, total),
        value <= balance_in(balances, address),
    ensures
        value <= total,
        sums_to(debited(balances, address, value), (total - value) as nat),
{
    let rows = choose|rows: Seq<(Seq<char>, nat)>|
        distinct_rows(rows) && #[trigger] rows_map(rows) == balances && rows_sum(rows) == total;
    let held = balance_in(balances, address);
    lemma_rows_with(rows, address, (held - value) as nat);
    let after = rows_with(rows, address, (held - value) as nat);
    assert(rows_map(after) == debited(balances, address, value));
}

/// No account holds more than the sum of all balances, nor do any two
/// accounts together.
pub proof fn lemma_sum_covers_balances(
    balances: Map<Seq<char>, nat>,
    total: nat,
    a: Seq<char>,
    b: Seq<char>,
)
    requires
        sums_to(balances, total),
    ensures
        balance_in(balances, a) <= total,
        a != b ==> balance_in(balances, a) + balance_in(balances, b) <= total,
{
    let rows = choose|rows: Seq<(Seq<char>, nat)>|
        distinct_rows(rows) && #[trigger] rows_map(rows) == balances && rows_sum(rows) == total;
    if has_row(rows, a) {
        let i = row_of(rows, a);
        lemma_lookup(rows, i);
        lemma_sum_covers(rows, i, i);
        if has_row(rows, b) {
            let j = row_of(rows, b);
            lemma_lookup(rows, j);
            lemma_sum_covers(rows, i, j);
        }
    } else if has_row(rows, b) {
        let j = row_of(rows, b);
        lemma_lookup(rows, j);
        lemma_sum_covers(rows, j, j);
    }
}

/// One row of the ledger.
pub struct Account {
    pub address: Address,
    pub balance: Amount,
}

/// The balances of all accounts. An account that was never written has no
/// row and holds nothing.
pub struct Ledger {
    accounts: Vec<Account>,
}

impl View for Ledger {
    type V = Map<Seq<char>, nat>;

    /// The balance of each account that has a row.
    closed spec fn view(&self) -> Map<Seq<char>, nat> {
        rows_map(self.rows())
    }
}

impl Ledger {
    /// The rows of the ledger: each address with what it holds.
    pub closed spec fn rows(&self) -> Seq<(Seq<char>, nat)> {
        Seq::new(
            self.accounts@.len(),
            |i: int| (self.accounts@[i].address@, self.accounts@[i].balance@),
        )
    }

    /// No account has two rows.
    pub closed spec fn wf(&self) -> bool {
        distinct_rows(self.rows())
    }

    /// The sum of the balances of all accounts.
    pub closed spec fn total(&self) -> nat {
        rows_sum(self.rows())
    }

    /// The total is the sum of all balances, and it covers what any one
    /// account, or any two, hold; every balance fits in 128 bits.
    pub proof fn lemma_total_is_sum(&self)
        requires
            self.wf(),
        ensures
            sums_to(self@, self.total()),
            forall|a: Seq<char>| #[trigger] self.balance(a) <= u128::MAX,
    {
        assert forall|a: Seq<char>| #[trigger] self.balance(a) <= u128::MAX by {
            if has_row(self.rows(), a) {
                lemma_lookup(self.rows(), row_of(self.rows(), a));
            }
        }
    }

    /// What `address` holds.
    pub open spec fn balance(&self, address: Seq<char>) -> nat {
        balance_in(self@, address)
    }

    /// A ledger without accounts.
    pub fn new() -> (ledger: Ledger)
        ensures
            ledger.wf(),
            ledger@ == Map::<Seq<char>, nat>::empty(),
            ledger.total() == 0,
    {
        let ledger = Ledger { accounts: Vec::new() };
        assert(ledger.rows() =~= Seq::<(Seq<char>, nat)>::empty());
        assert(ledger@ =~= Map::<Seq<char>, nat>::empty());
        ledger
    }

    /// The ledger that `entries` create, and the total supply: the sum of
    /// their amounts. The entries are read in their order and each amount is
    /// added to what its address holds. Where one of them cannot be read, or
    /// the sum leaves 128 bits, no ledger is made.
    pub fn mint_initial(entries: &Vec<InitialBalance>) -> (result: Result<
        (Ledger, Amount),
        LedgerError,
    >)
        ensures
            match result {
                Ok((ledger, supply)) => {
                    &&& entries_total(entries@) == Ok::<nat, LedgerError>(supply@)
                    &&& ledger.wf()
                    &&& ledger@ == entries_balances(entries@)
                    &&& ledger.total() == supply@
                },
                Err(e) => entries_total(entries@) == Err::<nat, LedgerError>(e),
            },
    {
        let mut ledger = Ledger::new();
        let mut supply: u128 = 0;
        let mut i: usize = 0;
        while i < entries.len()
            invariant
                0 <= i <= entries@.len(),
                ledger.wf(),
                entries_total(entries@.take(i as int)) == Ok::<nat, LedgerError>(supply as nat),
                ledger@ == entries_balances(entries@.take(i as int)),
                ledger.total() == supply,
            decreases entries@.len() - i,
        {
            proof {
                lemma_entries_step(entries@, i as int);
            }
            let value: u128 = match entries[i].valid_amount() {
                Ok(value) => value,
                Err(e) => {
                    proof {
                        lemma_entries_failure(entries@, i as int + 1);
                    }
                    return Err(e);
                },
            };
            if supply > u128::MAX - value {
                proof {
                    lemma_entries_failure(entries@, i as int + 1);
                }
                return Err(LedgerError::Overflow);
            }
            proof {
                let address = entries@[i as int].address@;
                ledger.lemma_total_is_sum();
                lemma_sum_covers_balances(ledger@, ledger.total(), address, address);
            }
            let credit = ledger.credit(&entries[i].address, Amount(value));
            assert(credit.is_ok());
            supply = supply + value;
            i = i + 1;
        }
        assert(entries@.take(i as int) =~= entries@);
        Ok((ledger, Amount(supply)))
    }

    fn position(&self, address: &Address) -> (found: Option<usize>)
        requires
            self.wf(),
        ensures
            match found {
                Some(i) => {
                    &&& i < self.accounts@.len()
                    &&& self.accounts@[i as int].address@ == address@
                    &&& self.balance(address@) == self.accounts@[i as int].balance@
                },
                None => !has_row(self.rows(), address@) && self.balance(address@) == 0,
            },
    {
        let mut i: usize = 0;
        while i < self.accounts.len()
            invariant
                self.wf(),
                0 <= i <= self.accounts@.len(),
                forall|k: int| 0 <= k < i ==> (#[trigger] self.rows()[k]).0 != address@,
            decreases self.accounts@.len() - i,
        {
            if self.accounts[i].address == *address {
                proof {
                    lemma_lookup(self.rows(), i as int);
                }
                return Some(i);
            }
            assert(self.rows()[i as int].0 != address@);
            i = i + 1;
        }
        None
    }

    /// Sets what `address` holds to `balance`; `found` is its row.
    fn put(&mut self, found: Option<usize>, address: &Address, balance: Amount)
        requires
            old(self).wf(),
            match found {
                Some(i) => i < old(self).accounts@.len() && old(self).accounts@[i as int].address@
                    == address@,
                None => !has_row(old(self).rows(), address@),
            },
        ensures
            final(self).wf(),
            final(self)@ == old(self)@.insert(address@, balance@),
            final(self).total() + old(self).balance(address@) == old(self).total() + balance@,
    {
        let row = Account { address: address.clone(), balance };
        let ghost before = self.rows();
        match found {
            Some(i) => {
                proof {
                    lemma_lookup(before, i as int);
                    lemma_map_update(before, i as int, (address@, balance@));
                    lemma_sum_update(before, i as int, (address@, balance@));
                }
                self.accounts.set(i, row);
                assert(self.rows() =~= before.update(i as int, (address@, balance@)));
            },
            None => {
                proof {
                    lemma_map_push(before, (address@, balance@));
                    lemma_sum_push(before, (address@, balance@));
                }
                self.accounts.push(row);
                assert(self.rows() =~= before.push((address@, balance@)));
            },
        }
    }

    /// The sum of the balances of all accounts, refused where it does not
    /// fit in 128 bits.
    pub fn sum_of_balances(&self) -> (result: Result<Amount, LedgerError>)
        ensures
            match result {
                Ok(sum) => sum@ == self.total(),
                Err(e) => e == LedgerError::Overflow && self.total() > u128::MAX,
            },
    {
        let mut sum: u128 = 0;
        let mut i: usize = 0;
        while i < self.accounts.len()
            invariant
                0 <= i <= self.accounts@.len(),
                self.rows().len() == self.accounts@.len(),
                sum == rows_sum(self.rows().take(i as int)),
            decreases self.accounts@.len() - i,
        {
            let held: u128 = self.accounts[i].balance.0;
            proof {
                lemma_sum_prefix(self.rows(), i as int);
                lemma_sum_prefix(self.rows(), i as int + 1);
            }
            if sum > u128::MAX - held {
                return Err(LedgerError::Overflow);
            }
            sum = sum + held;
            i = i + 1;
        }
        assert(self.rows().take(i as int) =~= self.rows());
        Ok(Amount(sum))
    }

    /// What `address` holds: zero for an account that was never written.
    pub fn balance_of(&self, address: &Address) -> (balance: Amount)
        requires
            self.wf(),
        ensures
            balance@ == self.balance(address@),
    {
        match self.position(address) {
            Some(i) => self.accounts[i].balance,
            None => Amount(0),
        }
    }

    /// Adds `amount` to what `address` holds, giving the account a row if
    /// it has none. Refused, with nothing changed, where the new balance
    /// would not fit in 128 bits.
    pub fn credit(&mut self, address: &Address, amount: Amount) -> (result: Result<
        (),
        LedgerError,
    >)
        requires
            old(self).wf(),
        ensures
            final(self).wf(),
            match result {
                Ok(_) => {
                    &&& final(self)@ == credited(old(self)@, address@, amount@)
                    &&& final(self).total() == old(self).total() + amount@
                },
                Err(e) => {
                    &&& e == LedgerError::Overflow
                    &&& old(self).balance(address@) + amount@ > u128::MAX
                    &&& *final(self) == *old(self)
                },
            },
    {
        let found = self.position(address);
        let held = match found {
            Some(i) => self.accounts[i].balance,
            None => Amount(0),
        };
        match held.add(&amount) {
            Ok(sum) => {
                self.put(found, address, sum);
                Ok(())
            },
            Err(e) => Err(e),
        }
    }

    /// Takes `amount` from what `address` holds. Refused, with nothing
    /// changed, where the account holds less.
    pub fn debit(&mut self, address: &Address, amount: Amount) -> (result: Result<
        (),
        LedgerError,
    >)
        requires
            old(self).wf(),
        ensures
            final(self).wf(),
            match result {
                Ok(_) => {
                    &&& amount@ <= old(self).balance(address@)
                    &&& final(self)@ == debited(old(self)@, address@, amount@)
                    &&& final(self).total() == old(self).total() - amount@
                },
                Err(e) => {
                    &&& e == LedgerError::InsufficientFunds
                    &&& old(self).balance(address@) < amount@
                    &&& *final(self) == *old(self)
                },
            },
    {
        let found = self.position(address);
        let held = match found {
            Some(i) => self.accounts[i].balance,
            None => Amount(0),
        };
        match held.subtract(&amount) {
            Ok(rest) => {
                proof {
                    self.lemma_total_is_sum();
                    lemma_sum_covers_balances(self@, self.total(), address@, address@);
                }
                self.put(found, address, rest);
                Ok(())
            },
            Err(e) => Err(e),
        }
    }
}

} // verus!
