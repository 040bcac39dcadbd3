//! The requests that the token takes and the answers it gives.

use vstd::prelude::*;
use vstd::string::is_ascii_spec_bytes;
use vstd::string::StringSliceAdditionalSpecFns;
use vstd::utf8::encode_utf8;
use crate::address::Address;
use crate::amount::{parsed, Amount};
use crate::error::LedgerError;
use crate::ledger::credited;
use crate::model::Operation;

verus! {

/// A display name is valid where its UTF-8 form takes 3 to 30 bytes.
pub open spec fn valid_name(name: Seq<char>) -> bool {
    3 <= encode_utf8(name).len() <= 30
}

/// A ticker symbol is valid where it is made of 3 to 6 upper-case ASCII
/// letters.
pub open spec fn valid_symbol(symbol: Seq<char>) -> bool {
    &&& 3 <= symbol.len() <= 6
    &&& forall|i: int| 0 <= i < symbol.len() ==> 'A' <= #[trigger] symbol[i] <= 'Z'
}

/// The largest decimal precision that a token may have.
pub const MAX_DECIMALS: u8 = 18;

/// Whether `name` can be a token's display name.
pub fn is_valid_name(name: &str) -> (valid: bool)
    ensures
        valid == valid_name(name@),
{
    let length: usize = name.as_bytes().len();
    if length < 3 || length > 30 {
        return false;
    }
    true
}

/// Whether `symbol` can be a token's ticker symbol.
pub fn is_valid_symbol(symbol: &str) -> (valid: bool)
    ensures
        valid == valid_symbol(symbol@),
{
    if !symbol.is_ascii() {
        return false;
    }
    let bytes = symbol.as_bytes();
    let length: usize = bytes.len();
    proof {
        is_ascii_spec_bytes(symbol);
    }
    if length < 3 || length > 6 {
        return false;
    }
    let mut i: usize = 0;
    while i < length
        invariant
            0 <= i <= length,
            length == symbol@.len(),
            length == bytes@.len(),
            vstd::string::is_ascii(symbol),
            forall|j: int| 0 <= j < length ==> bytes@[j] == symbol@[j] as u8,
            forall|j: int| 0 <= j < i ==> 'A' <= #[trigger] symbol@[j] <= 'Z',
        decreases length - i,
    {
        let byte: u8 = bytes[i];
        if byte < 65 || byte > 90 {
            assert(!('A' <= symbol@[i as int] <= 'Z'));
            return false;
        }
        assert('A' <= symbol@[i as int] <= 'Z');
        i = i + 1;
    }
    true
}

/// What one account holds when the token is created. The amount is given
/// as decimal text and is read when the token is created.
#[derive(Debug)]
pub struct InitialBalance {
    pub address: Address,
    pub amount: String,
}

impl InitialBalance {
    /// The amount of the entry, where its text can be read as one.
    pub fn valid_amount(&self) -> (result: Result<u128, LedgerError>)
        ensures
            match result {
                Ok(value) => parsed(self.amount@) == Some(value as nat),
                Err(e) => parsed(self.amount@).is_none() && e == LedgerError::InvalidAmount,
            },
    {
        match Amount::parse(self.amount.as_str()) {
            Ok(amount) => Ok(amount.0),
            Err(e) => Err(e),
        }
    }
}

/// The sum of the amounts of `entries`, taken in their order: the first
/// entry whose text cannot be read gives `InvalidAmount`, the first with
/// which the running sum leaves 128 bits gives `Overflow`, whichever comes
/// first.
pub open spec fn entries_total(entries: Seq<InitialBalance>) -> Result<nat, LedgerError>
    decreases entries.len(),
{
    if entries.len() == 0 {
        Ok(0)
    } else {
        match entries_total(entries.drop_last()) {
            Err(e) => Err(e),
            Ok(sum) => match parsed(entries.last().amount@) {
                None => Err(LedgerError::InvalidAmount),
                Some(value) => if sum + value > u128::MAX {
                    Err(LedgerError::Overflow)
                } else {
                    Ok(sum + value)
                },
            },
        }
    }
}

/// The balances that `entries` give: each entry's amount is added to what
/// its address holds, so an address that occurs twice holds both amounts.
pub open spec fn entries_balances(entries: Seq<InitialBalance>) -> Map<Seq<char>, nat>
    decreases entries.len(),
{
    if entries.len() == 0 {
        Map::empty()
    } else {
        credited(
            entries_balances(entries.drop_last()),
            entries.last().address@,
            match parsed(entries.last().amount@) {
                Some(value) => value,
                None => 0,
            },
        )
    }
}

/// The request that creates the token.
#[derive(Debug)]
pub struct InitMsg {
    pub name: String,
    pub symbol: String,
    pub decimals: u8,
    pub initial_balances: Vec<InitialBalance>,
}

impl InitMsg {
    /// Whether name, symbol and decimal precision are all acceptable.
    pub open spec fn valid_config(&self) -> bool {
        &&& valid_name(self.name@)
        &&& valid_symbol(self.symbol@)
        &&& self.decimals <= MAX_DECIMALS
    }

    /// What `valid_total` returns.
    pub open spec fn spec_valid_total(&self) -> Result<nat, LedgerError> {
        if !self.valid_config() {
            Err(LedgerError::InvalidConfig)
        } else {
            entries_total(self.initial_balances@)
        }
    }

    /// Checks the request and returns the total supply that it creates.
    /// Name, symbol and decimal precision are checked first; then the
    /// amounts are read and summed in their order.
    pub fn valid_total(&self) -> (result: Result<u128, LedgerError>)
        ensures
            match result {
                Ok(total) => self.spec_valid_total() == Ok::<nat, LedgerError>(total as nat),
                Err(e) => self.spec_valid_total() == Err::<nat, LedgerError>(e),
            },
    {
        if !is_valid_name(self.name.as_str()) {
            return Err(LedgerError::InvalidConfig);
        }
        if !is_valid_symbol(self.symbol.as_str()) {
            return Err(LedgerError::InvalidConfig);
        }
        if self.decimals > MAX_DECIMALS {
            return Err(LedgerError::InvalidConfig);
        }
        let mut total: u128 = 0;
        let mut i: usize = 0;
        while i < self.initial_balances.len()
            invariant
                self.valid_config(),
                0 <= i <= self.initial_balances@.len(),
                entries_total(self.initial_balances@.take(i as int)) == Ok::<nat, LedgerError>(
                    total as nat,
                ),
            decreases self.initial_balances@.len() - i,
        {
            proof {
                lemma_entries_step(self.initial_balances@, i as int);
            }
            let value: u128 = match self.initial_balances[i].valid_amount() {
                Ok(value) => value,
                Err(e) => {
                    proof {
                        lemma_entries_failure(self.initial_balances@, i as int + 1);
                    }
                    return Err(e);
                },
            };
            if total > u128::MAX - value {
                proof {
                    lemma_entries_failure(self.initial_balances@, i as int + 1);
                }
                return Err(LedgerError::Overflow);
            }
            total = total + value;
            i = i + 1;
        }
        assert(self.initial_balances@.take(i as int) =~= self.initial_balances@);
        Ok(total)
    }
}

/// The entries up to and with the one at `k` are the entries before it
/// and that one.
pub proof fn lemma_entries_step(entries: Seq<InitialBalance>, k: int)
    requires
        0 <= k < entries.len(),
    ensures
        entries.take(k + 1).drop_last() == entries.take(k),
        entries.take(k + 1).last() == entries[k],
{
    assert(entries.take(k + 1).drop_last() =~= entries.take(k));
}

/// A failure among the first `k` entries is the failure of the whole list.
pub proof fn lemma_entries_failure(entries: Seq<InitialBalance>, k: int)
    requires
        0 <= k <= entries.len(),
        entries_total(entries.take(k)).is_err(),
    ensures
        entries_total(entries) == entries_total(entries.take(k)),
    decreases entries.len(),
{
    if k == entries.len() {
        assert(entries.take(k) =~= entries);
    } else {
        assert(entries.drop_last().take(k) =~= entries.take(k));
        lemma_entries_failure(entries.drop_last(), k);
    }
}

/// A request that changes the token's state. Amounts are given as decimal
/// text and are read when the request is handled.
#[derive(Debug)]
pub enum HandleMsg {
    /// Lets `spender` move up to `amount` out of the caller's balance.
    Approve { spender: Address, amount: String },
    /// Moves `amount` from the caller to `recipient`.
    Transfer { recipient: Address, amount: String },
    /// Moves `amount` from `owner` to `recipient`, against the allowance
    /// that `owner` gave the caller.
    TransferFrom { owner: Address, recipient: Address, amount: String },
    /// Destroys `amount` of what the caller holds.
    Burn { amount: String },
}

impl HandleMsg {
    /// The amount text of the request.
    pub open spec fn amount_text(&self) -> Seq<char> {
        match self {
            HandleMsg::Approve { amount, .. } => amount@,
            HandleMsg::Transfer { amount, .. } => amount@,
            HandleMsg::TransferFrom { amount, .. } => amount@,
            HandleMsg::Burn { amount } => amount@,
        }
    }

    /// The request with its amount read, where it can be read.
    pub open spec fn operation(&self) -> Option<Operation> {
        match parsed(self.amount_text()) {
            None => None,
            Some(value) => Some(
                match self {
                    HandleMsg::Approve { spender, .. } => Operation::Approve {
                        spender: spender@,
                        value,
                    },
                    HandleMsg::Transfer { recipient, .. } => Operation::Transfer {
                        recipient: recipient@,
                        value,
                    },
                    HandleMsg::TransferFrom { owner, recipient, .. } => Operation::TransferFrom {
                        owner: owner@,
                        recipient: recipient@,
                        value,
                    },
                    HandleMsg::Burn { .. } => Operation::Burn { value },
                },
            ),
        }
    }

    /// Checks that the amount of the request can be read.
    pub fn validate(&self) -> (result: Result<(), LedgerError>)
        ensures
            result.is_ok() <==> parsed(self.amount_text()).is_some(),
            result.is_err() ==> result == Err::<(), LedgerError>(LedgerError::InvalidAmount),
    {
        match self {
            HandleMsg::Approve { amount, .. } => Amount::validate(amount.as_str()),
            HandleMsg::Transfer { amount, .. } => Amount::validate(amount.as_str()),
            HandleMsg::TransferFrom { amount, .. } => Amount::validate(amount.as_str()),
            HandleMsg::Burn { amount } => Amount::validate(amount.as_str()),
        }
    }
}

/// A request that only reads the token's state.
#[derive(Debug)]
pub enum QueryMsg {
    /// What does `address` hold?
    Balance { address: Address },
    /// How much may `spender` still move out of `owner`'s balance?
    Allowance { owner: Address, spender: Address },
}

/// The answer to a query.
#[derive(Clone, Copy, Debug, PartialEq, Eq, Structural)]
pub enum QueryResponse {
    Balance(BalanceResponse),
    Allowance(AllowanceResponse),
}

/// The answer to a balance query.
#[derive(Clone, Copy, Debug, PartialEq, Eq, Structural)]
pub struct BalanceResponse {
    pub balance: Amount,
}

/// The answer to an allowance query.
#[derive(Clone, Copy, Debug, PartialEq, Eq, Structural)]
pub struct AllowanceResponse {
    pub allowance: Amount,
}

} // verus!
