//! The failures that the ledger reports.

use vstd::prelude::*;
use vstd::string::StringExecFns;

verus! {

/// Why an operation was refused. A refused operation changes nothing.
#[derive(Clone, Copy, Debug, PartialEq, Eq, Structural, Hash)]
pub enum LedgerError {
    /// Amount text that is empty, holds a character other than a decimal
    /// digit, or denotes a number beyond the representable range.
    InvalidAmount,
    /// A sum beyond the representable range.
    Overflow,
    /// A debit larger than the balance it is taken from.
    InsufficientFunds,
    /// A delegated transfer larger than the allowance that remains.
    InsufficientAllowance,
    /// A name, symbol or decimal precision outside the accepted format.
    InvalidConfig,
    /// A caller without the right to an owner-gated action.
    Unauthorized,
}

impl LedgerError {
    /// The text shown for each failure.
    pub open spec fn spec_message(self) -> Seq<char> {
        match self {
            LedgerError::InvalidAmount => "Error while parsing string to u128"@,
            LedgerError::Overflow => "Amount overflow"@,
            LedgerError::InsufficientFunds => "Insufficient funds"@,
            LedgerError::InsufficientAllowance => "Insufficient allowance"@,
            LedgerError::InvalidConfig => "Invalid token configuration"@,
            LedgerError::Unauthorized => "Unauthorized"@,
        }
    }

    /// A human-readable description of the failure.
    pub fn message(&self) -> (text: String)
        ensures
            text@ == self.spec_message(),
    {
        match self {
            LedgerError::InvalidAmount => String::from_str("Error while parsing string to u128"),
            LedgerError::Overflow => String::from_str("Amount overflow"),
            LedgerError::InsufficientFunds => String::from_str("Insufficient funds"),
            LedgerError::InsufficientAllowance => String::from_str("Insufficient allowance"),
            LedgerError::InvalidConfig => String::from_str("Invalid token configuration"),
            LedgerError::Unauthorized => String::from_str("Unauthorized"),
        }
    }
}

} // verus!
