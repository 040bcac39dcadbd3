use erc20::address::Address;
use erc20::amount::Amount;
use erc20::error::LedgerError;
use erc20::gate::{ensure_allowance, ensure_owner, sale_order};
use erc20::msg::{HandleMsg, InitMsg, InitialBalance};
use erc20::token::Token;

#[test]
fn only_the_owner_passes() {
    let owner = Address::new("account1");
    assert_eq!(ensure_owner(&Address::new("account1"), &owner), Ok(()));
    assert_eq!(
        ensure_owner(&Address::new("account2"), &owner),
        Err(LedgerError::Unauthorized)
    );
    assert_eq!(ensure_owner(&Address::new(""), &owner), Err(LedgerError::Unauthorized));
}

#[test]
fn the_allowance_must_cover_the_price() {
    assert_eq!(ensure_allowance(Amount(500), Amount(500)), Ok(()));
    assert_eq!(ensure_allowance(Amount(501), Amount(500)), Ok(()));
    assert_eq!(
        ensure_allowance(Amount(499), Amount(500)),
        Err(LedgerError::InsufficientAllowance)
    );
    assert_eq!(ensure_allowance(Amount(0), Amount(0)), Ok(()));
}

#[test]
fn a_sale_orders_the_payment() {
    let seller = Address::new("seller");
    let buyer = Address::new("buyer");
    let order = sale_order(&seller, &seller, &buyer, Amount(500), Amount(500)).unwrap();
    match order {
        HandleMsg::TransferFrom {
            owner,
            recipient,
            amount,
        } => {
            assert_eq!(owner, buyer);
            assert_eq!(recipient, seller);
            assert_eq!(amount, "500");
        }
        other => panic!("unexpected order: {:?}", other),
    }
}

#[test]
fn a_sale_is_refused_to_strangers_and_to_poor_buyers() {
    let seller = Address::new("seller");
    let buyer = Address::new("buyer");
    let owner = Address::new("owner");
    assert_eq!(
        sale_order(&seller, &owner, &buyer, Amount(500), Amount(500)).err(),
        Some(LedgerError::Unauthorized)
    );
    assert_eq!(
        sale_order(&seller, &owner, &buyer, Amount(0), Amount(500)).err(),
        Some(LedgerError::Unauthorized)
    );
    assert_eq!(
        sale_order(&seller, &seller, &buyer, Amount(499), Amount(500)).err(),
        Some(LedgerError::InsufficientAllowance)
    );
}

#[test]
fn the_order_of_a_sale_is_carried_out_by_the_token() {
    let seller = Address::new("seller");
    let buyer = Address::new("buyer");
    let service = Address::new("dns");
    let mut token = Token::initialize(InitMsg {
        name: "Ether".to_string(),
        symbol: "ETH".to_string(),
        decimals: 18,
        initial_balances: vec![InitialBalance {
            address: buyer.clone(),
            amount: "1000".to_string(),
        }],
    })
    .unwrap();
    token.approve(&buyer, &service, Amount(500));
    let allowance = token.allowance_of(&buyer, &service);
    let order = sale_order(&seller, &seller, &buyer, allowance, Amount(500)).unwrap();
    assert!(token.handle(&service, &order).is_ok());
    assert_eq!(token.balance_of(&buyer), Amount(500));
    assert_eq!(token.balance_of(&seller), Amount(500));
    assert_eq!(token.allowance_of(&buyer, &service), Amount(0));
    let allowance = token.allowance_of(&buyer, &service);
    assert_eq!(
        sale_order(&seller, &seller, &buyer, allowance, Amount(500)).err(),
        Some(LedgerError::InsufficientAllowance)
    );
}
