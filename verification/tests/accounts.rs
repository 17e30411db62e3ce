use bigdecimal::BigDecimal;
use pmarket::accounts::{change_balance, create_user, insert_user, try_create_user};
use pmarket::amount::Amount;
use pmarket::model::{Ledger, MarketError, NewMarket, NewUser};
use pmarket::trading::insert_market;
use std::str::FromStr;

fn dec(s: &str) -> BigDecimal {
    BigDecimal::from_str(s).unwrap()
}

fn amount(s: &str) -> Amount {
    Amount::from_decimal(dec(s)).unwrap()
}

fn balance(ledger: &Ledger, id: &str) -> BigDecimal {
    let i = ledger.find_user(id).unwrap();
    ledger.users[i].balance.to_decimal()
}

#[test]
fn new_user_gets_seed_balance() {
    let mut ledger = Ledger::new();
    assert_eq!(create_user("alice", &mut ledger), Ok(()));
    assert_eq!(ledger.users.len(), 1);
    assert_eq!(balance(&ledger, "alice"), dec("1000"));
}

#[test]
fn duplicate_user_is_refused() {
    let mut ledger = Ledger::new();
    create_user("alice", &mut ledger).unwrap();
    change_balance("alice", &amount("-1.5"), &mut ledger).unwrap();
    assert_eq!(create_user("alice", &mut ledger), Err(MarketError::DuplicateIdentity));
    assert_eq!(ledger.users.len(), 1);
    assert_eq!(balance(&ledger, "alice"), dec("998.5"));
}

#[test]
fn try_create_user_is_idempotent() {
    let mut ledger = Ledger::new();
    assert_eq!(try_create_user("bob", &mut ledger), Ok(()));
    change_balance("bob", &amount("250"), &mut ledger).unwrap();
    assert_eq!(try_create_user("bob", &mut ledger), Ok(()));
    assert_eq!(ledger.users.len(), 1);
    assert_eq!(balance(&ledger, "bob"), dec("1250"));
}

#[test]
fn change_balance_adds_either_sign() {
    let mut ledger = Ledger::new();
    create_user("alice", &mut ledger).unwrap();
    create_user("bob", &mut ledger).unwrap();
    assert_eq!(change_balance("alice", &amount("0.25"), &mut ledger), Ok(()));
    assert_eq!(balance(&ledger, "alice"), dec("1000.25"));
    assert_eq!(change_balance("alice", &amount("-1500"), &mut ledger), Ok(()));
    assert_eq!(balance(&ledger, "alice"), dec("-499.75"));
    assert_eq!(balance(&ledger, "bob"), dec("1000"));
}

#[test]
fn change_balance_of_unknown_user_fails() {
    let mut ledger = Ledger::new();
    create_user("alice", &mut ledger).unwrap();
    assert_eq!(
        change_balance("carol", &amount("1"), &mut ledger),
        Err(MarketError::UnknownUser)
    );
    assert_eq!(balance(&ledger, "alice"), dec("1000"));
}

#[test]
fn amount_arithmetic_is_exact() {
    let a = amount("0.1");
    let b = amount("0.2");
    assert_eq!(a.plus(&b).to_decimal(), dec("0.3"));
    assert_eq!(a.minus(&b).to_decimal(), dec("-0.1"));
    assert_eq!(a.negated().to_decimal(), dec("-0.1"));
    assert_eq!(Amount::zero().to_decimal(), dec("0"));
    assert_eq!(Amount::from_units(-7).to_decimal(), dec("-7"));
    assert_eq!(a.clone().to_decimal(), dec("0.1"));
}

#[test]
fn amount_order_goes_by_value() {
    assert!(amount("1.0").at_most(&amount("1")));
    assert!(amount("-3").at_most(&amount("2.5")));
    assert!(!amount("2.50001").at_most(&amount("2.5")));
    assert!(amount("0.000").is_non_negative());
    assert!(!amount("-0.001").is_non_negative());
    assert!(amount("0.001").is_positive());
    assert!(!amount("0").is_positive());
}

#[test]
fn amount_refuses_scale_out_of_range() {
    assert!(Amount::from_decimal(BigDecimal::new(1.into(), 16384)).is_some());
    assert!(Amount::from_decimal(BigDecimal::new(1.into(), 16385)).is_none());
    assert!(Amount::from_decimal(BigDecimal::new(1.into(), -16384)).is_some());
    assert!(Amount::from_decimal(BigDecimal::new(1.into(), -16385)).is_none());
}

#[test]
fn rows_are_inserted_as_given() {
    let mut ledger = Ledger::new();
    let row = NewUser { id: "erin".to_string(), balance: amount("12.75") };
    assert_eq!(insert_user(row, &mut ledger), Ok(()));
    assert_eq!(balance(&ledger, "erin"), dec("12.75"));
    let again = NewUser { id: "erin".to_string(), balance: amount("1") };
    assert_eq!(insert_user(again, &mut ledger), Err(MarketError::DuplicateIdentity));
    assert_eq!(balance(&ledger, "erin"), dec("12.75"));

    let market = NewMarket {
        title: "Frost?".to_string(),
        description: "Below zero".to_string(),
        owner_id: "erin".to_string(),
        liquidity: amount("40"),
    };
    assert_eq!(insert_market(market, &mut ledger), Ok(1));
    assert_eq!(balance(&ledger, "erin"), dec("12.75"));
    assert_eq!(ledger.markets[0].liquidity.to_decimal(), dec("40"));
    assert_eq!(ledger.markets[0].bought_shares.len(), 2);
    let orphan = NewMarket {
        title: String::new(),
        description: String::new(),
        owner_id: "nobody".to_string(),
        liquidity: amount("40"),
    };
    assert_eq!(insert_market(orphan, &mut ledger), Err(MarketError::UnknownUser));
    assert_eq!(ledger.markets.len(), 1);
    assert!(ledger.is_well_formed());
}
