use erc20::address::Address;
use erc20::amount::Amount;
use erc20::error::LedgerError;
use erc20::msg::{
    AllowanceResponse, BalanceResponse, HandleMsg, InitMsg, InitialBalance, QueryMsg,
    QueryResponse,
};
use erc20::response::{attr, Response};
use erc20::state::Constants;
use erc20::token::Token;

fn address(index: u8) -> Address {
    match index {
        0 => Address::new("addr0000"),
        1 => Address::new("addr1111"),
        2 => Address::new("addr4321"),
        3 => Address::new("addr5432"),
        _ => panic!("Unsupported address index"),
    }
}

fn instantiate_msg() -> InitMsg {
    InitMsg {
        decimals: 5,
        name: "Ash token".to_string(),
        symbol: "ASH".to_string(),
        initial_balances: vec![
            InitialBalance {
                address: address(1),
                amount: "11".to_string(),
            },
            InitialBalance {
                address: address(2),
                amount: "22".to_string(),
            },
            InitialBalance {
                address: address(3),
                amount: "33".to_string(),
            },
        ],
    }
}

fn instantiate() -> Token {
    Token::initialize(instantiate_msg()).unwrap()
}

fn get_balance(token: &Token, address: &Address) -> u128 {
    token.balance_of(address).value()
}

fn get_allowance(token: &Token, owner: &Address, spender: &Address) -> u128 {
    token.allowance_of(owner, spender).value()
}

fn sum_of_balances(token: &Token) -> u128 {
    (0..4).map(|i| get_balance(token, &address(i))).sum()
}

#[test]
fn instantiate_works() {
    let token = instantiate();
    assert_eq!(
        token.constants(),
        &Constants {
            name: "Ash token".to_string(),
            symbol: "ASH".to_string(),
            decimals: 5
        }
    );
    assert_eq!(token.total_supply().value(), 66);
    assert_eq!(get_balance(&token, &address(1)), 11);
    assert_eq!(get_balance(&token, &address(2)), 22);
    assert_eq!(get_balance(&token, &address(3)), 33);
}

#[test]
fn transfer_works() {
    let mut token = instantiate();
    let sender = address(1);
    let recipient = address(2);

    // Before
    assert_eq!(get_balance(&token, &sender), 11);
    assert_eq!(get_balance(&token, &recipient), 22);

    // Transfer
    let transfer_msg = HandleMsg::Transfer {
        recipient: recipient.clone(),
        amount: "1".to_string(),
    };
    let transfer_response: Response = token.handle(&sender, &transfer_msg).unwrap();
    assert_eq!(
        transfer_response.attributes,
        vec![
            attr("action", "transfer"),
            attr("sender", sender.as_str()),
            attr("recipient", recipient.as_str()),
        ]
    );

    // After
    assert_eq!(get_balance(&token, &sender), 10);
    assert_eq!(get_balance(&token, &recipient), 23);
}

#[test]
fn approve_works() {
    let mut token = instantiate();
    let owner = address(1);
    let spender = address(2);

    // Before
    assert_eq!(get_allowance(&token, &owner, &spender), 0);

    // Approve
    let approve_msg = HandleMsg::Approve {
        spender: spender.clone(),
        amount: "42".to_string(),
    };
    let approve_response: Response = token.handle(&owner, &approve_msg).unwrap();
    assert_eq!(
        approve_response.attributes,
        vec![
            attr("action", "approve"),
            attr("owner", owner.as_str()),
            attr("spender", spender.as_str()),
        ]
    );

    // After
    assert_eq!(get_allowance(&token, &owner, &spender), 42);
}

#[test]
fn transfer_from_works() {
    let mut token = instantiate();
    let owner = address(1);
    let spender = address(2);
    let recipient = address(3);

    // Before
    assert_eq!(get_balance(&token, &owner), 11);
    assert_eq!(get_balance(&token, &recipient), 33);
    assert_eq!(get_allowance(&token, &owner, &spender), 0);

    // Approve
    let approve_msg = HandleMsg::Approve {
        spender: spender.clone(),
        amount: "42".to_string(),
    };
    let approve_response: Response = token.handle(&owner, &approve_msg).unwrap();
    assert_eq!(
        approve_response.attributes,
        vec![
            attr("action", "approve"),
            attr("owner", owner.as_str()),
            attr("spender", spender.as_str()),
        ]
    );

    // Transfer from
    let transfer_from_msg = HandleMsg::TransferFrom {
        owner: owner.clone(),
        recipient: recipient.clone(),
        amount: "2".to_string(),
    };
    let transfer_from_response: Response = token.handle(&spender, &transfer_from_msg).unwrap();
    assert_eq!(
        transfer_from_response.attributes,
        vec![
            attr("action", "transfer_from"),
            attr("spender", spender.as_str()),
            attr("sender", owner.as_str()),
            attr("recipient", recipient.as_str()),
        ]
    );

    // After
    assert_eq!(get_balance(&token, &owner), 9);
    assert_eq!(get_balance(&token, &recipient), 35);
    assert_eq!(get_allowance(&token, &owner, &spender), 40);
}

#[test]
fn burn_works() {
    let mut token = instantiate();
    let owner = address(1);

    // Before
    assert_eq!(get_balance(&token, &owner), 11);

    // Burn
    let burn_msg = HandleMsg::Burn {
        amount: "1".to_string(),
    };
    let burn_response: Response = token.handle(&owner, &burn_msg).unwrap();
    assert_eq!(
        burn_response.attributes,
        vec![
            attr("action", "burn"),
            attr("account", owner.as_str()),
            attr("amount", "1")
        ]
    );

    // After
    assert_eq!(get_balance(&token, &owner), 10);
    assert_eq!(token.total_supply().value(), 65);
}

#[test]
fn can_query_balance_of_existing_address() {
    let token = instantiate();
    let query_msg = QueryMsg::Balance {
        address: address(2),
    };
    let query_result = token.query(&query_msg);
    assert_eq!(
        query_result,
        QueryResponse::Balance(BalanceResponse {
            balance: Amount(22)
        })
    );
    let balance = match query_result {
        QueryResponse::Balance(BalanceResponse { balance }) => balance,
        other => panic!("unexpected answer: {:?}", other),
    };
    let json = format!("{{\"balance\":\"{}\"}}", balance.to_text());
    assert_eq!(json.as_bytes(), b"{\"balance\":\"22\"}");
}

#[test]
fn can_query_allowance() {
    let mut token = instantiate();
    let query_msg = QueryMsg::Allowance {
        owner: address(1),
        spender: address(2),
    };
    assert_eq!(
        token.query(&query_msg),
        QueryResponse::Allowance(AllowanceResponse {
            allowance: Amount(0)
        })
    );
    token.approve(&address(1), &address(2), Amount(42));
    assert_eq!(
        token.query(&query_msg),
        QueryResponse::Allowance(AllowanceResponse {
            allowance: Amount(42)
        })
    );
    // the allowance is that of the pair, in this order
    assert_eq!(get_allowance(&token, &address(2), &address(1)), 0);
}

#[test]
fn unknown_address_holds_nothing() {
    let token = instantiate();
    assert_eq!(get_balance(&token, &address(0)), 0);
    assert_eq!(get_allowance(&token, &address(0), &address(1)), 0);
}

#[test]
fn transfer_moves_one() {
    let mut token = instantiate();
    assert_eq!(token.transfer(&address(1), &address(2), Amount(1)), Ok(()));
    assert_eq!(get_balance(&token, &address(1)), 10);
    assert_eq!(get_balance(&token, &address(2)), 23);
    assert_eq!(get_balance(&token, &address(3)), 33);
    assert_eq!(token.total_supply().value(), 66);
}

#[test]
fn approve_then_transfer_from() {
    let mut token = instantiate();
    let (a, b, c) = (address(1), address(2), address(3));
    token.approve(&a, &b, Amount(42));
    assert_eq!(get_allowance(&token, &a, &b), 42);
    assert_eq!(token.transfer_from(&b, &a, &c, Amount(2)), Ok(()));
    assert_eq!(get_balance(&token, &a), 11 - 2);
    assert_eq!(get_balance(&token, &c), 33 + 2);
    assert_eq!(get_balance(&token, &b), 22);
    assert_eq!(get_allowance(&token, &a, &b), 40);
}

#[test]
fn transfer_from_beyond_allowance() {
    let mut token = instantiate();
    let (a, b, c) = (address(1), address(2), address(3));
    token.approve(&a, &b, Amount(40));
    assert_eq!(
        token.transfer_from(&b, &a, &c, Amount(1000)),
        Err(LedgerError::InsufficientAllowance)
    );
    assert_eq!(get_balance(&token, &a), 11);
    assert_eq!(get_balance(&token, &b), 22);
    assert_eq!(get_balance(&token, &c), 33);
    assert_eq!(get_allowance(&token, &a, &b), 40);
}

#[test]
fn burn_within_and_beyond_balance() {
    let mut token = instantiate();
    let a = address(1);
    assert_eq!(token.transfer(&a, &address(2), Amount(1)), Ok(()));
    assert_eq!(get_balance(&token, &a), 10);
    assert_eq!(token.burn(&a, Amount(1)), Ok(()));
    assert_eq!(get_balance(&token, &a), 9);
    assert_eq!(token.burn(&a, Amount(1000)), Err(LedgerError::InsufficientFunds));
    assert_eq!(get_balance(&token, &a), 9);
    assert_eq!(token.total_supply().value(), 65);
}

#[test]
fn bad_symbol_and_decimals_are_refused() {
    let mut msg = instantiate_msg();
    msg.symbol = "eth".to_string();
    assert_eq!(Token::initialize(msg).err(), Some(LedgerError::InvalidConfig));

    let mut msg = instantiate_msg();
    msg.decimals = 19;
    assert_eq!(Token::initialize(msg).err(), Some(LedgerError::InvalidConfig));

    let mut msg = instantiate_msg();
    msg.decimals = 18;
    assert!(Token::initialize(msg).is_ok());
}

#[test]
fn bad_name_is_refused() {
    for name in ["", "ab", "0123456789012345678901234567890", "ääääääääääääääää"] {
        let mut msg = instantiate_msg();
        msg.name = name.to_string();
        assert_eq!(Token::initialize(msg).err(), Some(LedgerError::InvalidConfig));
    }
    for name in ["abc", "012345678901234567890123456789", "äääääääääääääää"] {
        let mut msg = instantiate_msg();
        msg.name = name.to_string();
        assert!(Token::initialize(msg).is_ok());
    }
}

#[test]
fn config_is_checked_before_amounts() {
    let mut msg = instantiate_msg();
    msg.symbol = "eth".to_string();
    msg.initial_balances[0].amount = "x".to_string();
    assert_eq!(msg.valid_total(), Err(LedgerError::InvalidConfig));
    assert_eq!(Token::initialize(msg).err(), Some(LedgerError::InvalidConfig));
}

#[test]
fn bad_initial_amount_is_refused() {
    let mut msg = instantiate_msg();
    msg.initial_balances[1].amount = "2 2".to_string();
    assert_eq!(msg.valid_total(), Err(LedgerError::InvalidAmount));
    assert_eq!(Token::initialize(msg).err(), Some(LedgerError::InvalidAmount));
}

#[test]
fn overflowing_initial_total_is_refused() {
    let mut msg = instantiate_msg();
    msg.initial_balances[2].amount = u128::MAX.to_string();
    assert_eq!(msg.valid_total(), Err(LedgerError::Overflow));
    assert_eq!(Token::initialize(msg).err(), Some(LedgerError::Overflow));

    // the first failure in the order of the entries is the one reported
    let mut msg = instantiate_msg();
    msg.initial_balances[1].amount = u128::MAX.to_string();
    msg.initial_balances[2].amount = "oops".to_string();
    assert_eq!(msg.valid_total(), Err(LedgerError::Overflow));

    let mut msg = instantiate_msg();
    msg.initial_balances[0].amount = "oops".to_string();
    msg.initial_balances[2].amount = u128::MAX.to_string();
    assert_eq!(msg.valid_total(), Err(LedgerError::InvalidAmount));
}

#[test]
fn valid_total_sums_the_entries() {
    assert_eq!(instantiate_msg().valid_total(), Ok(66));
    assert_eq!(instantiate_msg().initial_balances[2].valid_amount(), Ok(33));
    let mut msg = instantiate_msg();
    msg.initial_balances.clear();
    assert_eq!(msg.valid_total(), Ok(0));
    let token = Token::initialize(msg).unwrap();
    assert_eq!(token.total_supply().value(), 0);
}

#[test]
fn an_address_given_twice_holds_both_amounts() {
    let mut msg = instantiate_msg();
    msg.initial_balances.push(InitialBalance {
        address: address(1),
        amount: "0100".to_string(),
    });
    let token = Token::initialize(msg).unwrap();
    assert_eq!(get_balance(&token, &address(1)), 111);
    assert_eq!(token.total_supply().value(), 166);
    assert_eq!(sum_of_balances(&token), 166);
}

#[test]
fn transfer_beyond_balance_changes_nothing() {
    let mut token = instantiate();
    assert_eq!(
        token.transfer(&address(1), &address(2), Amount(12)),
        Err(LedgerError::InsufficientFunds)
    );
    assert_eq!(
        token.transfer(&address(0), &address(2), Amount(1)),
        Err(LedgerError::InsufficientFunds)
    );
    assert_eq!(get_balance(&token, &address(1)), 11);
    assert_eq!(get_balance(&token, &address(2)), 22);
    assert_eq!(token.transfer(&address(1), &address(2), Amount(11)), Ok(()));
    assert_eq!(get_balance(&token, &address(1)), 0);
    assert_eq!(get_balance(&token, &address(2)), 33);
}

#[test]
fn transfer_to_oneself_is_checked_and_changes_nothing() {
    let mut token = instantiate();
    let a = address(1);
    assert_eq!(token.transfer(&a, &a, Amount(11)), Ok(()));
    assert_eq!(get_balance(&token, &a), 11);
    assert_eq!(token.transfer(&a, &a, Amount(12)), Err(LedgerError::InsufficientFunds));
    assert_eq!(get_balance(&token, &a), 11);
    assert_eq!(token.transfer(&address(0), &address(0), Amount(0)), Ok(()));
    assert_eq!(token.total_supply().value(), 66);
    assert_eq!(sum_of_balances(&token), 66);
}

#[test]
fn transfer_to_a_new_account_creates_it() {
    let mut token = instantiate();
    assert_eq!(token.transfer(&address(3), &address(0), Amount(30)), Ok(()));
    assert_eq!(get_balance(&token, &address(0)), 30);
    assert_eq!(get_balance(&token, &address(3)), 3);
}

#[test]
fn transfer_from_with_allowance_but_no_funds_keeps_the_allowance() {
    let mut token = instantiate();
    let (a, b, c) = (address(1), address(2), address(3));
    token.approve(&a, &b, Amount(1000));
    assert_eq!(
        token.transfer_from(&b, &a, &c, Amount(12)),
        Err(LedgerError::InsufficientFunds)
    );
    assert_eq!(get_allowance(&token, &a, &b), 1000);
    assert_eq!(get_balance(&token, &a), 11);
    assert_eq!(get_balance(&token, &c), 33);
    // with neither, the allowance is what is reported
    assert_eq!(
        token.transfer_from(&b, &a, &c, Amount(1001)),
        Err(LedgerError::InsufficientAllowance)
    );
    // the owner itself has no allowance over its own balance
    assert_eq!(
        token.transfer_from(&a, &a, &c, Amount(1)),
        Err(LedgerError::InsufficientAllowance)
    );
}

#[test]
fn transfer_from_uses_the_allowance_up() {
    let mut token = instantiate();
    let (a, b, c) = (address(1), address(2), address(3));
    token.approve(&a, &b, Amount(5));
    assert_eq!(token.transfer_from(&b, &a, &c, Amount(5)), Ok(()));
    assert_eq!(get_allowance(&token, &a, &b), 0);
    assert_eq!(
        token.transfer_from(&b, &a, &c, Amount(1)),
        Err(LedgerError::InsufficientAllowance)
    );
    assert_eq!(token.transfer_from(&b, &a, &c, Amount(0)), Ok(()));
    assert_eq!(get_balance(&token, &a), 6);
    assert_eq!(get_balance(&token, &c), 38);
}

#[test]
fn approve_overwrites_and_is_idempotent() {
    let mut token = instantiate();
    let (a, b) = (address(1), address(2));
    token.approve(&a, &b, Amount(42));
    token.approve(&a, &b, Amount(42));
    assert_eq!(get_allowance(&token, &a, &b), 42);
    token.approve(&a, &b, Amount(7));
    assert_eq!(get_allowance(&token, &a, &b), 7);
    token.approve(&a, &b, Amount(0));
    assert_eq!(get_allowance(&token, &a, &b), 0);
    // more than the owner holds
    token.approve(&a, &b, Amount(u128::MAX));
    assert_eq!(get_allowance(&token, &a, &b), u128::MAX);
    assert_eq!(get_balance(&token, &a), 11);
}

#[test]
fn sum_of_balances_follows_the_supply() {
    let mut token = instantiate();
    let (a, b, c, d) = (address(1), address(2), address(3), address(0));
    let mut burned = 0u128;
    token.approve(&a, &b, Amount(10));
    let _ = token.transfer(&a, &d, Amount(4));
    let _ = token.transfer_from(&b, &a, &c, Amount(3));
    if token.burn(&c, Amount(20)).is_ok() {
        burned += 20;
    }
    if token.burn(&c, Amount(20)).is_ok() {
        burned += 20;
    }
    let _ = token.transfer(&d, &d, Amount(4));
    if token.burn(&d, Amount(4)).is_ok() {
        burned += 4;
    }
    assert_eq!(burned, 24);
    assert_eq!(token.total_supply().value(), 66 - burned);
    assert_eq!(sum_of_balances(&token), 66 - burned);
}

#[test]
fn handle_refuses_bad_amounts_and_changes_nothing() {
    let mut token = instantiate();
    let msg = HandleMsg::Transfer {
        recipient: address(2),
        amount: "0x1".to_string(),
    };
    assert_eq!(msg.validate(), Err(LedgerError::InvalidAmount));
    assert_eq!(token.handle(&address(1), &msg).err(), Some(LedgerError::InvalidAmount));
    let msg = HandleMsg::Burn {
        amount: "".to_string(),
    };
    assert_eq!(token.handle(&address(1), &msg).err(), Some(LedgerError::InvalidAmount));
    let msg = HandleMsg::Approve {
        spender: address(2),
        amount: "-1".to_string(),
    };
    assert_eq!(token.handle(&address(1), &msg).err(), Some(LedgerError::InvalidAmount));
    let msg = HandleMsg::TransferFrom {
        owner: address(1),
        recipient: address(2),
        amount: "340282366920938463463374607431768211456".to_string(),
    };
    assert_eq!(token.handle(&address(3), &msg).err(), Some(LedgerError::InvalidAmount));
    assert_eq!(get_balance(&token, &address(1)), 11);
    assert_eq!(get_allowance(&token, &address(1), &address(2)), 0);
}

#[test]
fn handle_reports_the_failure_of_the_operation() {
    let mut token = instantiate();
    let msg = HandleMsg::Transfer {
        recipient: address(2),
        amount: "12".to_string(),
    };
    assert_eq!(msg.validate(), Ok(()));
    assert_eq!(token.handle(&address(1), &msg).err(), Some(LedgerError::InsufficientFunds));
    let msg = HandleMsg::TransferFrom {
        owner: address(1),
        recipient: address(2),
        amount: "1".to_string(),
    };
    assert_eq!(
        token.handle(&address(3), &msg).err(),
        Some(LedgerError::InsufficientAllowance)
    );
    let msg = HandleMsg::Burn {
        amount: "0012".to_string(),
    };
    assert_eq!(token.handle(&address(1), &msg).err(), Some(LedgerError::InsufficientFunds));
}

#[test]
fn burn_reports_the_amount_in_canonical_text() {
    let mut token = instantiate();
    let msg = HandleMsg::Burn {
        amount: "0010".to_string(),
    };
    let response = token.handle(&address(1), &msg).unwrap();
    assert_eq!(response.attributes[2], attr("amount", "10"));
    assert_eq!(get_balance(&token, &address(1)), 1);
}
