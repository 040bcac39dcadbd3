//! The token: its state and the requests that read and change it.

use vstd::prelude::*;
use crate::address::Address;
use crate::allowance::AllowanceTable;
use crate::amount::{decimal_text, Amount};
use crate::error::LedgerError;
use crate::ledger::{balance_in, lemma_sum_covers_balances, Ledger};
use crate::model::{transferred, Operation, TokenView};
use crate::msg::{
    entries_balances, is_valid_name, is_valid_symbol, AllowanceResponse, BalanceResponse, HandleMsg,
    InitMsg, QueryMsg, QueryResponse, MAX_DECIMALS,
};
use crate::response::Response;
use crate::state::Constants;

verus! {

/// The tags that acknowledge the request `operation` of `caller`.
pub open spec fn receipt(caller: Seq<char>, operation: Operation) -> Seq<(Seq<char>, Seq<char>)> {
    match operation {
        Operation::Approve { spender, value } => seq![
            ("action"@, "approve"@),
            ("owner"@, caller),
            ("spender"@, spender),
        ],
        Operation::Transfer { recipient, value } => seq![
            ("action"@, "transfer"@),
            ("sender"@, caller),
            ("recipient"@, recipient),
        ],
        Operation::TransferFrom { owner, recipient, value } => seq![
            ("action"@, "transfer_from"@),
            ("spender"@, caller),
            ("sender"@, owner),
            ("recipient"@, recipient),
        ],
        Operation::Burn { value } => seq![
            ("action"@, "burn"@),
            ("account"@, caller),
            ("amount"@, decimal_text(value)),
        ],
    }
}

/// A token: its constants, what every account holds, what every spender
/// may move, and the total supply.
pub struct Token {
    constants: Constants,
    ledger: Ledger,
    allowances: AllowanceTable,
    supply: Amount,
}

impl View for Token {
    type V = TokenView;

    closed spec fn view(&self) -> TokenView {
        TokenView {
            name: self.constants.name@,
            symbol: self.constants.symbol@,
            decimals: self.constants.decimals,
            balances: self.ledger@,
            allowances: self.allowances@,
            supply: self.supply@,
        }
    }
}

impl Token {
    /// Both tables are well formed and the supply is the sum of all
    /// balances.
    pub closed spec fn wf(&self) -> bool {
        &&& self.ledger.wf()
        &&& self.allowances.wf()
        &&& self.supply@ == self.ledger.total()
    }

    /// What holds of every well-formed token: the supply is the sum of all
    /// balances, and supply, balances and allowances fit in 128 bits.
    pub proof fn lemma_wf(&self)
        requires
            self.wf(),
        ensures
            self@.conserved(),
            self@.supply <= u128::MAX,
            forall|a: Seq<char>| #[trigger] self@.balance(a) <= self@.supply,
            forall|o: Seq<char>, s: Seq<char>| #[trigger] self@.allowance(o, s) <= u128::MAX,
    {
        self.ledger.lemma_total_is_sum();
        assert forall|a: Seq<char>| #[trigger] self@.balance(a) <= self@.supply by {
            lemma_sum_covers_balances(self@.balances, self@.supply, a, a);
        }
        assert forall|o: Seq<char>, s: Seq<char>| #[trigger]
            self@.allowance(o, s) <= u128::MAX by {
            self.allowances.lemma_allowance_bounded(o, s);
        }
    }

    /// Creates the token. Name, symbol and decimal precision are checked
    /// before any balance is written; then every entry is credited to its
    /// address, and the sum of the entries becomes the supply. Where
    /// anything is refused, no token is made.
    pub fn initialize(msg: InitMsg) -> (result: Result<Token, LedgerError>)
        ensures
            match result {
                Ok(token) => {
                    &&& token.wf()
                    &&& msg.spec_valid_total() == Ok::<nat, LedgerError>(token@.supply)
                    &&& token@ == (TokenView {
                        name: msg.name@,
                        symbol: msg.symbol@,
                        decimals: msg.decimals,
                        balances: entries_balances(msg.initial_balances@),
                        allowances: Map::empty(),
                        supply: token@.supply,
                    })
                },
                Err(e) => msg.spec_valid_total() == Err::<nat, LedgerError>(e),
            },
    {
        if !is_valid_name(msg.name.as_str()) {
            return Err(LedgerError::InvalidConfig);
        }
        if !is_valid_symbol(msg.symbol.as_str()) {
            return Err(LedgerError::InvalidConfig);
        }
        if msg.decimals > MAX_DECIMALS {
            return Err(LedgerError::InvalidConfig);
        }
        match Ledger::mint_initial(&msg.initial_balances) {
            Ok((ledger, supply)) => {
                let constants = Constants {
                    name: msg.name,
                    symbol: msg.symbol,
                    decimals: msg.decimals,
                };
                Ok(Token { constants, ledger, allowances: AllowanceTable::new(), supply })
            },
            Err(e) => Err(e),
        }
    }

    /// Puts a token together from its parts, as a host does that keeps
    /// them in its own store: the supply is the sum of the balances that
    /// `ledger` holds. Refused where that sum does not fit in 128 bits.
    pub fn assemble(constants: Constants, ledger: Ledger, allowances: AllowanceTable) -> (result:
        Result<Token, LedgerError>)
        requires
            ledger.wf(),
            allowances.wf(),
        ensures
            match result {
                Ok(token) => {
                    &&& token.wf()
                    &&& token@ == (TokenView {
                        name: constants.name@,
                        symbol: constants.symbol@,
                        decimals: constants.decimals,
                        balances: ledger@,
                        allowances: allowances@,
                        supply: ledger.total(),
                    })
                },
                Err(e) => e == LedgerError::Overflow && ledger.total() > u128::MAX,
            },
    {
        match ledger.sum_of_balances() {
            Ok(supply) => Ok(Token { constants, ledger, allowances, supply }),
            Err(e) => Err(e),
        }
    }

    /// Name, symbol and decimal precision.
    pub fn constants(&self) -> (constants: &Constants)
        ensures
            constants.name@ == self@.name,
            constants.symbol@ == self@.symbol,
            constants.decimals == self@.decimals,
    {
        &self.constants
    }

    /// The total supply.
    pub fn total_supply(&self) -> (supply: Amount)
        ensures
            supply@ == self@.supply,
    {
        self.supply
    }

    /// What `address` holds: zero for an account that was never written.
    pub fn balance_of(&self, address: &Address) -> (balance: Amount)
        requires
            self.wf(),
        ensures
            balance@ == self@.balance(address@),
    {
        self.ledger.balance_of(address)
    }

    /// What `spender` may still move out of `owner`'s balance: zero where
    /// nothing was approved.
    pub fn allowance_of(&self, owner: &Address, spender: &Address) -> (allowance: Amount)
        requires
            self.wf(),
        ensures
            allowance@ == self@.allowance(owner@, spender@),
    {
        self.allowances.allowance_of(owner, spender)
    }

    /// Takes `amount` from `from` and gives it to `to`.
    fn perform_transfer(&mut self, from: &Address, to: &Address, amount: Amount) -> (result:
        Result<(), LedgerError>)
        requires
            old(self).wf(),
        ensures
            final(self).wf(),
            match result {
                Ok(_) => {
                    &&& amount@ <= old(self)@.balance(from@)
                    &&& final(self)@ == (TokenView {
                        balances: transferred(old(self)@.balances, from@, to@, amount@),
                        ..old(self)@
                    })
                },
                Err(e) => {
                    &&& e == LedgerError::InsufficientFunds
                    &&& old(self)@.balance(from@) < amount@
                    &&& *final(self) == *old(self)
                },
            },
    {
        proof {
            self.ledger.lemma_total_is_sum();
            lemma_sum_covers_balances(self.ledger@, self.ledger.total(), from@, to@);
        }
        match self.ledger.debit(from, amount) {
            Ok(_) => {},
            Err(e) => {
                return Err(e);
            },
        }
        let credit = self.ledger.credit(to, amount);
        assert(credit.is_ok());
        Ok(())
    }

    /// Moves `amount` from `caller` to `recipient`. Refused, with nothing
    /// changed, where `caller` holds less. A transfer to oneself is checked
    /// like any other and changes no balance.
    pub fn transfer(&mut self, caller: &Address, recipient: &Address, amount: Amount) -> (result:
        Result<(), LedgerError>)
        requires
            old(self).wf(),
        ensures
            final(self).wf(),
            match result {
                Ok(_) => old(self)@.transfer(caller@, recipient@, amount@) == Ok::<
                    TokenView,
                    LedgerError,
                >(final(self)@),
                Err(e) => {
                    &&& old(self)@.transfer(caller@, recipient@, amount@) == Err::<
                        TokenView,
                        LedgerError,
                    >(e)
                    &&& *final(self) == *old(self)
                },
            },
    {
        self.perform_transfer(caller, recipient, amount)
    }

    /// Moves `amount` from `owner` to `recipient` on behalf of `caller`,
    /// against the allowance that `owner` gave it. Refused with
    /// `InsufficientAllowance` where the allowance is smaller than
    /// `amount`, else with `InsufficientFunds` where `owner` holds less;
    /// a refusal changes neither allowance nor balance. Otherwise the
    /// allowance goes down by `amount` and the value moves.
    pub fn transfer_from(
        &mut self,
        caller: &Address,
        owner: &Address,
        recipient: &Address,
        amount: Amount,
    ) -> (result: Result<(), LedgerError>)
        requires
            old(self).wf(),
        ensures
            final(self).wf(),
            match result {
                Ok(_) => {
                    &&& old(self)@.transfer_from(caller@, owner@, recipient@, amount@) == Ok::<
                        TokenView,
                        LedgerError,
                    >(final(self)@)
                    &&& final(self)@.allowance(owner@, caller@) == old(self)@.allowance(
                        owner@,
                        caller@,
                    ) - amount@
                },
                Err(e) => {
                    &&& old(self)@.transfer_from(caller@, owner@, recipient@, amount@) == Err::<
                        TokenView,
                        LedgerError,
                    >(e)
                    &&& *final(self) == *old(self)
                },
            },
    {
        let allowed = self.allowances.allowance_of(owner, caller);
        if allowed.0 < amount.0 {
            return Err(LedgerError::InsufficientAllowance);
        }
        let held = self.ledger.balance_of(owner);
        if held.0 < amount.0 {
            return Err(LedgerError::InsufficientFunds);
        }
        let consumed = self.allowances.consume(owner, caller, amount);
        assert(consumed.is_ok());
        let moved = self.perform_transfer(owner, recipient, amount);
        assert(moved.is_ok());
        Ok(())
    }

    /// Sets the allowance of `spender` over `caller`'s balance to `amount`,
    /// whatever it was before and whatever `caller` holds.
    pub fn approve(&mut self, caller: &Address, spender: &Address, amount: Amount)
        requires
            old(self).wf(),
        ensures
            final(self).wf(),
            final(self)@ == old(self)@.approve(caller@, spender@, amount@),
            final(self)@.allowance(caller@, spender@) == amount@,
    {
        self.allowances.approve(caller, spender, amount);
    }

    /// Destroys `amount` of what `caller` holds and lowers the supply by as
    /// much. Refused, with nothing changed, where `caller` holds less.
    pub fn burn(&mut self, caller: &Address, amount: Amount) -> (result: Result<(), LedgerError>)
        requires
            old(self).wf(),
        ensures
            final(self).wf(),
            match result {
                Ok(_) => {
                    &&& old(self)@.burn(caller@, amount@) == Ok::<TokenView, LedgerError>(
                        final(self)@,
                    )
                    &&& final(self)@.supply + amount@ == old(self)@.supply
                },
                Err(e) => {
                    &&& old(self)@.burn(caller@, amount@) == Err::<TokenView, LedgerError>(e)
                    &&& *final(self) == *old(self)
                },
            },
    {
        match self.ledger.debit(caller, amount) {
            Ok(_) => {},
            Err(e) => {
                return Err(e);
            },
        }
        self.supply = Amount(self.supply.0 - amount.0);
        Ok(())
    }

    /// Carries out the request `msg` of `caller`. The amount is read
    /// first; then the request is carried out as `transfer`,
    /// `transfer_from`, `approve` or `burn` would. A refused request
    /// changes nothing; one that is carried out is acknowledged with tags
    /// that say what was done.
    pub fn handle(&mut self, caller: &Address, msg: &HandleMsg) -> (result: Result<
        Response,
        LedgerError,
    >)
        requires
            old(self).wf(),
        ensures
            final(self).wf(),
            match result {
                Ok(response) => {
                    &&& msg.operation().is_some()
                    &&& old(self)@.apply(caller@, msg.operation().unwrap()) == Ok::<
                        TokenView,
                        LedgerError,
                    >(final(self)@)
                    &&& response@ == receipt(caller@, msg.operation().unwrap())
                },
                Err(e) => {
                    &&& *final(self) == *old(self)
                    &&& match msg.operation() {
                        None => e == LedgerError::InvalidAmount,
                        Some(operation) => old(self)@.apply(caller@, operation) == Err::<
                            TokenView,
                            LedgerError,
                        >(e),
                    }
                },
            },
    {
        let mut response = Response::new();
        match msg {
            HandleMsg::Approve { spender, amount } => {
                let value = match Amount::parse(amount.as_str()) {
                    Ok(value) => value,
                    Err(e) => {
                        return Err(e);
                    },
                };
                self.approve(caller, spender, value);
                response.add_attribute("action", "approve");
                response.add_attribute("owner", caller.as_str());
                response.add_attribute("spender", spender.as_str());
            },
            HandleMsg::Transfer { recipient, amount } => {
                let value = match Amount::parse(amount.as_str()) {
                    Ok(value) => value,
                    Err(e) => {
                        return Err(e);
                    },
                };
                match self.transfer(caller, recipient, value) {
                    Ok(_) => {},
                    Err(e) => {
                        return Err(e);
                    },
                }
                response.add_attribute("action", "transfer");
                response.add_attribute("sender", caller.as_str());
                response.add_attribute("recipient", recipient.as_str());
            },
            HandleMsg::TransferFrom { owner, recipient, amount } => {
                let value = match Amount::parse(amount.as_str()) {
                    Ok(value) => value,
                    Err(e) => {
                        return Err(e);
                    },
                };
                match self.transfer_from(caller, owner, recipient, value) {
                    Ok(_) => {},
                    Err(e) => {
                        return Err(e);
                    },
                }
                response.add_attribute("action", "transfer_from");
                response.add_attribute("spender", caller.as_str());
                response.add_attribute("sender", owner.as_str());
                response.add_attribute("recipient", recipient.as_str());
            },
            HandleMsg::Burn { amount } => {
                let value = match Amount::parse(amount.as_str()) {
                    Ok(value) => value,
                    Err(e) => {
                        return Err(e);
                    },
                };
                match self.burn(caller, value) {
                    Ok(_) => {},
                    Err(e) => {
                        return Err(e);
                    },
                }
                let text = value.to_text();
                response.add_attribute("action", "burn");
                response.add_attribute("account", caller.as_str());
                response.add_attribute("amount", text.as_str());
            },
        }
        assert(response@ =~= receipt(caller@, msg.operation().unwrap()));
        Ok(response)
    }

    /// Answers the query `msg`.
    pub fn query(&self, msg: &QueryMsg) -> (answer: QueryResponse)
        requires
            self.wf(),
        ensures
            match *msg {
                QueryMsg::Balance { address } => answer == QueryResponse::Balance(
                    BalanceResponse { balance: Amount(self@.balance(address@) as u128) },
                ),
                QueryMsg::Allowance { owner, spender } => answer == QueryResponse::Allowance(
                    AllowanceResponse {
                        allowance: Amount(self@.allowance(owner@, spender@) as u128),
                    },
                ),
            },
    {
        match msg {
            QueryMsg::Balance { address } => QueryResponse::Balance(
                BalanceResponse { balance: self.balance_of(address) },
            ),
            QueryMsg::Allowance { owner, spender } => QueryResponse::Allowance(
                AllowanceResponse { allowance: self.allowance_of(owner, spender) },
            ),
        }
    }
}

} // verus!
