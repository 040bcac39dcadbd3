//! The checks by which a service built on the token gates its actions: who
//! may act, and whether the token will let the service collect its price.

use vstd::prelude::*;
use crate::address::Address;
use crate::amount::{decimal_text, Amount};
use crate::error::LedgerError;
use crate::model::Operation;
use crate::msg::HandleMsg;

verus! {

/// Lets `caller` through where it is `owner`, and no one else.
pub fn ensure_owner(caller: &Address, owner: &Address) -> (result: Result<(), LedgerError>)
    ensures
        result.is_ok() <==> caller@ == owner@,
        result.is_err() ==> result == Err::<(), LedgerError>(LedgerError::Unauthorized),
{
    if *caller == *owner {
        Ok(())
    } else {
        Err(LedgerError::Unauthorized)
    }
}

/// Passes where `allowance` covers `required`.
pub fn ensure_allowance(allowance: Amount, required: Amount) -> (result: Result<(), LedgerError>)
    ensures
        result.is_ok() <==> required@ <= allowance@,
        result.is_err() ==> result == Err::<(), LedgerError>(LedgerError::InsufficientAllowance),
{
    if allowance.0 < required.0 {
        Err(LedgerError::InsufficientAllowance)
    } else {
        Ok(())
    }
}

/// Decides the sale of something that `owner` holds, asked for by `seller`,
/// to `buyer` at `price`; `allowance` is what the token says the service
/// may move out of `buyer`'s balance. Only the owner may sell, and only
/// where the allowance covers the price. The answer is the request to put
/// to the token: move `price` from `buyer` to `seller`.
pub fn sale_order(
    seller: &Address,
    owner: &Address,
    buyer: &Address,
    allowance: Amount,
    price: Amount,
) -> (result: Result<HandleMsg, LedgerError>)
    ensures
        match result {
            Ok(order) => {
                &&& seller@ == owner@
                &&& price@ <= allowance@
                &&& order is TransferFrom
                &&& order.amount_text() == decimal_text(price@)
                &&& order.operation() == Some(
                    Operation::TransferFrom { owner: buyer@, recipient: seller@, value: price@ },
                )
            },
            Err(e) => if seller@ != owner@ {
                e == LedgerError::Unauthorized
            } else {
                allowance@ < price@ && e == LedgerError::InsufficientAllowance
            },
        },
{
    match ensure_owner(seller, owner) {
        Ok(_) => {},
        Err(e) => {
            return Err(e);
        },
    }
    match ensure_allowance(allowance, price) {
        Ok(_) => {},
        Err(e) => {
            return Err(e);
        },
    }
    Ok(
        HandleMsg::TransferFrom {
            owner: buyer.clone(),
            recipient: seller.clone(),
            amount: price.to_text(),
        },
    )
}

} // verus!
