//! The allowance table: how much each spender may still move out of each
//! owner's balance.

use vstd::prelude::*;
use crate::address::Address;
use crate::amount::Amount;
use crate::error::LedgerError;

verus! {

/// The allowance that the mapping `allowances` gives to `spender` over
/// `owner`'s balance: a pair without an entry has none.
pub open spec fn allowance_in(
    allowances: Map<(Seq<char>, Seq<char>), nat>,
    owner: Seq<char>,
    spender: Seq<char>,
) -> nat {
    if allowances.contains_key((owner, spender)) {
        allowances[(owner, spender)]
    } else {
        0
    }
}

/// One row of the allowance table.
pub struct Grant {
    pub owner: Address,
    pub spender: Address,
    pub remaining: Amount,
}

impl Grant {
    /// The pair that the row is about.
    pub open spec fn key(&self) -> (Seq<char>, Seq<char>) {
        (self.owner@, self.spender@)
    }
}

spec fn distinct(rows: Seq<Grant>) -> bool {
    forall|i: int, j: int|
        0 <= i < j < rows.len() ==> (#[trigger] rows[i]).key() != (#[trigger] rows[j]).key()
}

spec fn has_row(rows: Seq<Grant>, key: (Seq<char>, Seq<char>)) -> bool {
    exists|i: int| 0 <= i < rows.len() && (#[trigger] rows[i]).key() == key
}

spec fn row_of(rows: Seq<Grant>, key: (Seq<char>, Seq<char>)) -> int {
    choose|i: int| 0 <= i < rows.len() && (#[trigger] rows[i]).key() == key
}

spec fn rows_map(rows: Seq<Grant>) -> Map<(Seq<char>, Seq<char>), nat> {
    Map::new(
        |key: (Seq<char>, Seq<char>)| has_row(rows, key),
        |key: (Seq<char>, Seq<char>)| rows[row_of(rows, key)].remaining@,
    )
}

proof fn lemma_lookup(rows: Seq<Grant>, i: int)
    requires
        distinct(rows),
        0 <= i < rows.len(),
    ensures
        rows_map(rows).contains_key(rows[i].key()),
        rows_map(rows)[rows[i].key()] == rows[i].remaining@,
{
    let key = rows[i].key();
    assert(has_row(rows, key));
    let k = row_of(rows, key);
    assert(k == i);
}

proof fn lemma_map_push(rows: Seq<Grant>, row: Grant)
    requires
        distinct(rows),
        !has_row(rows, row.key()),
    ensures
        distinct(rows.push(row)),
        rows_map(rows.push(row)) =~= rows_map(rows).insert(row.key(), row.remaining@),
{
    let grown = rows.push(row);
    assert forall|i: int, j: int| 0 <= i < j < grown.len() implies (#[trigger] grown[i]).key()
        != (#[trigger] grown[j]).key() by {
        if j == rows.len() {
            assert(grown[i] == rows[i]);
        } else {
            assert(grown[i] == rows[i] && grown[j] == rows[j]);
        }
    }
    assert forall|a: (Seq<char>, Seq<char>)| has_row(grown, a) <==> (has_row(rows, a) || a
        == row.key()) by {
        if has_row(grown, a) {
            let k = row_of(grown, a);
            if k < rows.len() {
                assert(rows[k].key() == a);
            }
        }
        if has_row(rows, a) {
            let k = row_of(rows, a);
            assert(grown[k].key() == a);
        }
        if a == row.key() {
            assert(grown[rows.len() as int].key() == a);
        }
    }
    assert forall|a: (Seq<char>, Seq<char>)| has_row(grown, a) implies #[trigger] rows_map(
        grown,
    )[a] == rows_map(rows).insert(row.key(), row.remaining@)[a] by {
        let k = row_of(grown, a);
        lemma_lookup(grown, k);
        if k < rows.len() {
            assert(grown[k] == rows[k]);
            lemma_lookup(rows, k);
        }
    }
}

proof fn lemma_map_update(rows: Seq<Grant>, i: int, row: Grant)
    requires
        distinct(rows),
        0 <= i < rows.len(),
        row.key() == rows[i].key(),
    ensures
        distinct(rows.update(i, row)),
        rows_map(rows.update(i, row)) =~= rows_map(rows).insert(row.key(), row.remaining@),
{
    let changed = rows.update(i, row);
    assert forall|p: int, q: int| 0 <= p < q < changed.len() implies (#[trigger] changed[p]).key()
        != (#[trigger] changed[q]).key() by {
        assert(changed[p].key() == rows[p].key());
        assert(changed[q].key() == rows[q].key());
    }
    assert forall|a: (Seq<char>, Seq<char>)| has_row(changed, a) <==> has_row(rows, a) by {
        if has_row(changed, a) {
            let k = row_of(changed, a);
            assert(rows[k].key() == a);
        }
        if has_row(rows, a) {
            let k = row_of(rows, a);
            assert(changed[k].key() == a);
        }
    }
    lemma_lookup(rows, i);
    assert forall|a: (Seq<char>, Seq<char>)| has_row(changed, a) implies #[trigger] rows_map(
        changed,
    )[a] == rows_map(rows).insert(row.key(), row.remaining@)[a] by {
        let k = row_of(changed, a);
        lemma_lookup(changed, k);
        if k != i {
            assert(changed[k] == rows[k]);
            lemma_lookup(rows, k);
        }
    }
}

/// The allowances that owners have granted. A pair of owner and spender
/// that was never written has no row and no allowance.
pub struct AllowanceTable {
    grants: Vec<Grant>,
}

impl View for AllowanceTable {
    type V = Map<(Seq<char>, Seq<char>), nat>;

    /// The allowance of each pair of owner and spender that has a row.
    closed spec fn view(&self) -> Map<(Seq<char>, Seq<char>), nat> {
        rows_map(self.grants@)
    }
}

impl AllowanceTable {
    /// No pair of owner and spender has two rows.
    pub closed spec fn wf(&self) -> bool {
        distinct(self.grants@)
    }

    /// What `spender` may still move out of `owner`'s balance.
    pub open spec fn allowance(&self, owner: Seq<char>, spender: Seq<char>) -> nat {
        allowance_in(self@, owner, spender)
    }

    /// Every allowance fits in 128 bits.
    pub proof fn lemma_allowance_bounded(&self, owner: Seq<char>, spender: Seq<char>)
        requires
            self.wf(),
        ensures
            self.allowance(owner, spender) <= u128::MAX,
    {
        let rows = self.grants@;
        if has_row(rows, (owner, spender)) {
            lemma_lookup(rows, row_of(rows, (owner, spender)));
        }
    }

    /// A table without allowances.
    pub fn new() -> (table: AllowanceTable)
        ensures
            table.wf(),
            table@ == Map::<(Seq<char>, Seq<char>), nat>::empty(),
    {
        let table = AllowanceTable { grants: Vec::new() };
        assert(table@ =~= Map::<(Seq<char>, Seq<char>), nat>::empty());
        table
    }

    fn position(&self, owner: &Address, spender: &Address) -> (found: Option<usize>)
        requires
            self.wf(),
        ensures
            match found {
                Some(i) => i < self.grants@.len() && self.grants@[i as int].key() == (
                    owner@,
                    spender@,
                ) && self@.contains_key((owner@, spender@)) && self@[(owner@, spender@)]
                    == self.grants@[i as int].remaining@,
                None => !has_row(self.grants@, (owner@, spender@)) && !self@.contains_key(
                    (owner@, spender@),
                ),
            },
    {
        let mut i: usize = 0;
        while i < self.grants.len()
            invariant
                self.wf(),
                0 <= i <= self.grants@.len(),
                forall|k: int|
                    0 <= k < i ==> (#[trigger] self.grants@[k]).key() != (owner@, spender@),
            decreases self.grants@.len() - i,
        {
            if self.grants[i].owner == *owner && self.grants[i].spender == *spender {
                proof {
                    lemma_lookup(self.grants@, i as int);
                }
                return Some(i);
            }
            i = i + 1;
        }
        None
    }

    /// What `spender` may still move out of `owner`'s balance: zero for a
    /// pair that was never written.
    pub fn allowance_of(&self, owner: &Address, spender: &Address) -> (allowance: Amount)
        requires
            self.wf(),
        ensures
            allowance@ == self.allowance(owner@, spender@),
    {
        match self.position(owner, spender) {
            Some(i) => self.grants[i].remaining,
            None => Amount(0),
        }
    }

    fn store(&mut self, owner: &Address, spender: &Address, amount: Amount)
        requires
            old(self).wf(),
        ensures
            final(self).wf(),
            final(self)@ == old(self)@.insert((owner@, spender@), amount@),
    {
        let row = Grant { owner: owner.clone(), spender: spender.clone(), remaining: amount };
        match self.position(owner, spender) {
            Some(i) => {
                proof {
                    lemma_map_update(self.grants@, i as int, row);
                }
                self.grants.set(i, row);
            },
            None => {
                proof {
                    lemma_map_push(self.grants@, row);
                }
                self.grants.push(row);
            },
        }
    }

    /// Sets the allowance of `spender` over `owner`'s balance to `amount`,
    /// whatever it was before.
    pub fn approve(&mut self, owner: &Address, spender: &Address, amount: Amount)
        requires
            old(self).wf(),
        ensures
            final(self).wf(),
            final(self)@ == old(self)@.insert((owner@, spender@), amount@),
            final(self).allowance(owner@, spender@) == amount@,
    {
        self.store(owner, spender, amount);
    }

    /// Uses up `amount` of the allowance of `spender` over `owner`'s
    /// balance. Refused, with nothing changed, where less is left.
    pub fn consume(&mut self, owner: &Address, spender: &Address, amount: Amount) -> (result:
        Result<(), LedgerError>)
        requires
            old(self).wf(),
        ensures
            final(self).wf(),
            match result {
                Ok(_) => {
                    &&& amount@ <= old(self).allowance(owner@, spender@)
                    &&& final(self)@ == old(self)@.insert(
                        (owner@, spender@),
                        (old(self).allowance(owner@, spender@) - amount@) as nat,
                    )
                },
                Err(e) => {
                    &&& e == LedgerError::InsufficientAllowance
                    &&& old(self).allowance(owner@, spender@) < amount@
                    &&& *final(self) == *old(self)
                },
            },
    {
        let current = self.allowance_of(owner, spender);
        if current.0 < amount.0 {
            return Err(LedgerError::InsufficientAllowance);
        }
        self.store(owner, spender, Amount(current.0 - amount.0));
        Ok(())
    }
}

} // verus!
