//! The token as a mathematical object: its state, what each request does
//! to it, and the laws that hold of every sequence of requests.

use vstd::prelude::*;
use crate::allowance::allowance_in;
use crate::error::LedgerError;
use crate::ledger::{
    balance_in, credited, debited, lemma_sum_covers_balances, lemma_sum_credited,
    lemma_sum_debited, sums_to,
};

verus! {

/// `balances` after `value` was taken from `from` and then given to `to`.
/// Where the two are the same account, it holds afterwards what it held
/// before.
pub open spec fn transferred(
    balances: Map<Seq<char>, nat>,
    from: Seq<char>,
    to: Seq<char>,
    value: nat,
) -> Map<Seq<char>, nat> {
    credited(debited(balances, from, value), to, value)
}

/// A request with its amount already read.
pub enum Operation {
    Approve { spender: Seq<char>, value: nat },
    Transfer { recipient: Seq<char>, value: nat },
    TransferFrom { owner: Seq<char>, recipient: Seq<char>, value: nat },
    Burn { value: nat },
}

/// The state of a token.
pub struct TokenView {
    pub name: Seq<char>,
    pub symbol: Seq<char>,
    pub decimals: u8,
    pub balances: Map<Seq<char>, nat>,
    pub allowances: Map<(Seq<char>, Seq<char>), nat>,
    pub supply: nat,
}

impl TokenView {
    /// What `address` holds.
    pub open spec fn balance(self, address: Seq<char>) -> nat {
        balance_in(self.balances, address)
    }

    /// What `spender` may still move out of `owner`'s balance.
    pub open spec fn allowance(self, owner: Seq<char>, spender: Seq<char>) -> nat {
        allowance_in(self.allowances, owner, spender)
    }

    /// The recorded supply is the sum of all balances.
    pub open spec fn conserved(self) -> bool {
        sums_to(self.balances, self.supply)
    }

    /// `owner` sets the allowance of `spender` to `value`.
    pub open spec fn approve(self, owner: Seq<char>, spender: Seq<char>, value: nat) -> TokenView {
        TokenView { allowances: self.allowances.insert((owner, spender), value), ..self }
    }

    /// `caller` moves `value` to `recipient`.
    pub open spec fn transfer(self, caller: Seq<char>, recipient: Seq<char>, value: nat) -> Result<
        TokenView,
        LedgerError,
    > {
        if self.balance(caller) < value {
            Err(LedgerError::InsufficientFunds)
        } else {
            Ok(TokenView { balances: transferred(self.balances, caller, recipient, value), ..self })
        }
    }

    /// `caller` moves `value` from `owner` to `recipient`, against the
    /// allowance that `owner` gave it. The allowance is looked at first.
    pub open spec fn transfer_from(
        self,
        caller: Seq<char>,
        owner: Seq<char>,
        recipient: Seq<char>,
        value: nat,
    ) -> Result<TokenView, LedgerError> {
        if self.allowance(owner, caller) < value {
            Err(LedgerError::InsufficientAllowance)
        } else if self.balance(owner) < value {
            Err(LedgerError::InsufficientFunds)
        } else {
            Ok(
                TokenView {
                    balances: transferred(self.balances, owner, recipient, value),
                    allowances: self.allowances.insert(
                        (owner, caller),
                        (self.allowance(owner, caller) - value) as nat,
                    ),
                    ..self
                },
            )
        }
    }

    /// `caller` destroys `value` of what it holds.
    pub open spec fn burn(self, caller: Seq<char>, value: nat) -> Result<TokenView, LedgerError> {
        if self.balance(caller) < value {
            Err(LedgerError::InsufficientFunds)
        } else {
            Ok(
                TokenView {
                    balances: debited(self.balances, caller, value),
                    supply: (self.supply - value) as nat,
                    ..self
                },
            )
        }
    }

    /// What the request `operation` of `caller` does: the next state, or
    /// why it is refused.
    pub open spec fn apply(self, caller: Seq<char>, operation: Operation) -> Result<
        TokenView,
        LedgerError,
    > {
        match operation {
            Operation::Approve { spender, value } => Ok(self.approve(caller, spender, value)),
            Operation::Transfer { recipient, value } => self.transfer(caller, recipient, value),
            Operation::TransferFrom { owner, recipient, value } => self.transfer_from(
                caller,
                owner,
                recipient,
                value,
            ),
            Operation::Burn { value } => self.burn(caller, value),
        }
    }

    /// The state after `operation`: a refused request leaves it as it was.
    pub open spec fn after(self, caller: Seq<char>, operation: Operation) -> TokenView {
        match self.apply(caller, operation) {
            Ok(next) => next,
            Err(_) => self,
        }
    }

    /// The state after the requests `calls`, each a caller and what it
    /// asks for, made one after the other.
    pub open spec fn run(self, calls: Seq<(Seq<char>, Operation)>) -> TokenView
        decreases calls.len(),
    {
        if calls.len() == 0 {
            self
        } else {
            self.run(calls.drop_last()).after(calls.last().0, calls.last().1)
        }
    }

    /// The sum of the amounts that the burn requests among `calls`
    /// destroyed; a refused request destroys nothing.
    pub open spec fn burned(self, calls: Seq<(Seq<char>, Operation)>) -> nat
        decreases calls.len(),
    {
        if calls.len() == 0 {
            0
        } else {
            let before = self.run(calls.drop_last());
            let rest = self.burned(calls.drop_last());
            match calls.last().1 {
                Operation::Burn { value } => if before.burn(calls.last().0, value).is_ok() {
                    rest + value
                } else {
                    rest
                },
                _ => rest,
            }
        }
    }
}

/// Moving value between accounts leaves the sum of all balances as it was.
pub proof fn lemma_sum_transferred(
    balances: Map<Seq<char>, nat>,
    total: nat,
    from: Seq<char>,
    to: Seq<char>,
    value: nat,
)
    requires
        sums_to(balances, total),
        value <= balance_in(balances, from),
    ensures
        sums_to(transferred(balances, from, to, value), total),
{
    lemma_sum_debited(balances, total, from, value);
    lemma_sum_credited(debited(balances, from, value), (total - value) as nat, to, value);
}

/// One request keeps the supply equal to the sum of all balances. Only a
/// burn that is carried out changes the supply, and it lowers it by what
/// is burned.
pub proof fn lemma_step_conserves(state: TokenView, caller: Seq<char>, operation: Operation)
    requires
        state.conserved(),
    ensures
        state.after(caller, operation).conserved(),
        match operation {
            Operation::Burn { value } => if state.burn(caller, value).is_ok() {
                state.after(caller, operation).supply + value == state.supply
            } else {
                state.after(caller, operation) == state
            },
            _ => state.after(caller, operation).supply == state.supply,
        },
{
    match operation {
        Operation::Approve { spender, value } => {},
        Operation::Transfer { recipient, value } => {
            if state.balance(caller) >= value {
                lemma_sum_transferred(state.balances, state.supply, caller, recipient, value);
            }
        },
        Operation::TransferFrom { owner, recipient, value } => {
            if state.allowance(owner, caller) >= value && state.balance(owner) >= value {
                lemma_sum_transferred(state.balances, state.supply, owner, recipient, value);
            }
        },
        Operation::Burn { value } => {
            if state.balance(caller) >= value {
                lemma_sum_debited(state.balances, state.supply, caller, value);
            }
        },
    }
}

/// Conservation: after any sequence of requests, the sum of all balances
/// is the supply, and the supply is what it was at the start less the
/// amounts that were burned.
pub proof fn lemma_conservation(start: TokenView, calls: Seq<(Seq<char>, Operation)>)
    requires
        start.conserved(),
    ensures
        start.run(calls).conserved(),
        start.run(calls).supply + start.burned(calls) == start.supply,
    decreases calls.len(),
{
    if calls.len() > 0 {
        lemma_conservation(start, calls.drop_last());
        lemma_step_conserves(start.run(calls.drop_last()), calls.last().0, calls.last().1);
    }
}

/// After any sequence of requests no account holds less than nothing,
/// none holds more than the supply, and no two together do.
pub proof fn lemma_balances_bounded(
    start: TokenView,
    calls: Seq<(Seq<char>, Operation)>,
    a: Seq<char>,
    b: Seq<char>,
)
    requires
        start.conserved(),
    ensures
        0 <= start.run(calls).balance(a) <= start.run(calls).supply,
        a != b ==> start.run(calls).balance(a) + start.run(calls).balance(b) <= start.run(
            calls,
        ).supply,
{
    lemma_conservation(start, calls);
    let end = start.run(calls);
    lemma_sum_covers_balances(end.balances, end.supply, a, b);
}

/// After an approval the allowance is what was approved, whatever it was
/// before, and no other allowance and no balance has changed.
pub proof fn lemma_approve_sets(
    state: TokenView,
    owner: Seq<char>,
    spender: Seq<char>,
    value: nat,
    other_owner: Seq<char>,
    other_spender: Seq<char>,
)
    ensures
        state.approve(owner, spender, value).allowance(owner, spender) == value,
        (other_owner, other_spender) != (owner, spender) ==> state.approve(
            owner,
            spender,
            value,
        ).allowance(other_owner, other_spender) == state.allowance(other_owner, other_spender),
        state.approve(owner, spender, value).balances == state.balances,
        state.approve(owner, spender, value).supply == state.supply,
{
}

/// Approving the same amount twice in a row gives the state that
/// approving it once gives.
pub proof fn lemma_approve_idempotent(
    state: TokenView,
    owner: Seq<char>,
    spender: Seq<char>,
    value: nat,
)
    ensures
        state.approve(owner, spender, value).approve(owner, spender, value) == state.approve(
            owner,
            spender,
            value,
        ),
        state.approve(owner, spender, value).allowance(owner, spender) == value,
{
    let once = state.approve(owner, spender, value);
    assert(once.allowances.insert((owner, spender), value) =~= once.allowances);
}

/// A delegated transfer that is carried out lowers the allowance of the
/// caller over the owner's balance by exactly what was moved, and moves
/// that much from the owner to the recipient; one that is refused is
/// refused because the allowance or the balance is too small.
pub proof fn lemma_transfer_from_effect(
    state: TokenView,
    caller: Seq<char>,
    owner: Seq<char>,
    recipient: Seq<char>,
    value: nat,
)
    ensures
        match state.transfer_from(caller, owner, recipient, value) {
            Ok(next) => {
                &&& value <= state.allowance(owner, caller)
                &&& value <= state.balance(owner)
                &&& next.allowance(owner, caller) == state.allowance(owner, caller) - value
                &&& owner != recipient ==> next.balance(owner) == state.balance(owner) - value
                &&& owner != recipient ==> next.balance(recipient) == state.balance(recipient)
                    + value
                &&& owner == recipient ==> next.balance(owner) == state.balance(owner)
                &&& next.supply == state.supply
            },
            Err(e) => {
                &&& e == LedgerError::InsufficientAllowance <==> state.allowance(owner, caller)
                    < value
                &&& e == LedgerError::InsufficientFunds <==> (state.allowance(owner, caller)
                    >= value && state.balance(owner) < value)
            },
        },
{
}

/// A transfer that is carried out takes the amount from the caller and
/// gives it to the recipient; every other account holds what it held. A
/// transfer to oneself changes no balance.
pub proof fn lemma_transfer_effect(
    state: TokenView,
    caller: Seq<char>,
    recipient: Seq<char>,
    value: nat,
    other: Seq<char>,
)
    ensures
        match state.transfer(caller, recipient, value) {
            Ok(next) => {
                &&& value <= state.balance(caller)
                &&& caller != recipient ==> next.balance(caller) == state.balance(caller) - value
                &&& caller != recipient ==> next.balance(recipient) == state.balance(recipient)
                    + value
                &&& caller == recipient ==> next.balance(caller) == state.balance(caller)
                &&& (other != caller && other != recipient) ==> next.balance(other)
                    == state.balance(other)
                &&& next.allowances == state.allowances
                &&& next.supply == state.supply
            },
            Err(e) => e == LedgerError::InsufficientFunds && state.balance(caller) < value,
        },
{
}

} // verus!
