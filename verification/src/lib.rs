//! A fungible-token ledger: account balances, spending allowances and the
//! operations that move value between accounts, with every operation's
//! effect stated as a contract and proved.

pub mod error;
pub mod amount;
pub mod order;
pub mod address;
pub mod ledger;
pub mod allowance;
pub mod state;
pub mod msg;
pub mod response;
pub mod model;
pub mod token;
pub mod gate;
