use bigdecimal::{BigDecimal, FromPrimitive, ToPrimitive};
use pmarket::accounts::{change_balance, create_user};
use pmarket::amount::Amount;
use pmarket::model::{Ledger, Market, MarketError};
use pmarket::pricing::{balance_change, shares_after};
use pmarket::trading::{check_valid_trade, create_market, create_trade};
use std::str::FromStr;

fn d(s: &str) -> BigDecimal {
    BigDecimal::from_str(s).unwrap()
}

fn a(s: &str) -> Amount {
    Amount::from_decimal(d(s)).unwrap()
}

fn balance_in(ledger: &Ledger, id: &str) -> BigDecimal {
    let i = ledger.find_user(id).unwrap();
    ledger.users[i].balance.to_decimal()
}

fn bought(ledger: &Ledger, market_id: i32) -> Vec<BigDecimal> {
    let i = ledger.find_market(market_id).unwrap();
    ledger.markets[i].bought_shares.iter().map(|s| s.to_decimal()).collect()
}

fn open_market() -> (Ledger, i32) {
    let mut ledger = Ledger::new();
    create_user("alice", &mut ledger).unwrap();
    create_user("bob", &mut ledger).unwrap();
    let id = create_market("Rain?", "Will it rain", "alice", &a("100"), &mut ledger).unwrap();
    (ledger, id)
}

fn lmsr_cost(liquidity: f64, shares: &[f64]) -> f64 {
    let scaled: Vec<f64> = shares.iter().map(|s| s / liquidity).collect();
    let max = scaled.iter().cloned().fold(f64::NEG_INFINITY, f64::max);
    let sum: f64 = scaled.iter().map(|x| (x - max).exp()).sum();
    liquidity * (max + sum.ln())
}

#[test]
fn create_market_escrows_liquidity() {
    let (mut ledger, id) = open_market();
    assert_eq!(id, 1);
    assert_eq!(balance_in(&ledger, "alice"), d("900"));
    assert_eq!(balance_in(&ledger, "bob"), d("1000"));
    assert_eq!(ledger.markets.len(), 1);
    let m = &ledger.markets[0];
    assert_eq!(m.id, 1);
    assert_eq!(m.title, "Rain?");
    assert_eq!(m.description, "Will it rain");
    assert_eq!(m.owner_id, "alice");
    assert_eq!(m.liquidity.to_decimal(), d("100"));
    assert_eq!(bought(&ledger, 1), vec![d("0"), d("0")]);
    assert!(!m.is_resolved);
    assert_eq!(m.resolution, None);
    let second = create_market("Snow?", "", "bob", &a("12.5"), &mut ledger).unwrap();
    assert_eq!(second, 2);
    assert_eq!(balance_in(&ledger, "bob"), d("987.5"));
    assert!(ledger.is_well_formed());
}

#[test]
fn create_market_of_unknown_owner_fails() {
    let (mut ledger, _) = open_market();
    let r = create_market("x", "y", "nobody", &a("10"), &mut ledger);
    assert_eq!(r, Err(MarketError::UnknownUser));
    assert_eq!(ledger.markets.len(), 1);
    assert_eq!(balance_in(&ledger, "alice"), d("900"));
}

#[test]
fn create_market_may_overdraw_the_owner() {
    let mut ledger = Ledger::new();
    create_user("alice", &mut ledger).unwrap();
    let id = create_market("x", "y", "alice", &a("1500"), &mut ledger).unwrap();
    assert_eq!(id, 1);
    assert_eq!(balance_in(&ledger, "alice"), d("-500"));
}

#[test]
fn create_market_fails_when_ids_are_used_up() {
    let mut ledger = Ledger::new();
    create_user("alice", &mut ledger).unwrap();
    ledger.markets.push(Market {
        id: i32::MAX,
        title: String::new(),
        description: String::new(),
        owner_id: "alice".to_string(),
        liquidity: a("1"),
        bought_shares: vec![a("0"), a("0")],
        is_resolved: false,
        resolution: None,
    });
    assert!(ledger.is_well_formed());
    let r = create_market("x", "y", "alice", &a("10"), &mut ledger);
    assert_eq!(r, Err(MarketError::PersistenceError));
    assert_eq!(ledger.markets.len(), 1);
    assert_eq!(balance_in(&ledger, "alice"), d("1000"));
}

#[test]
fn check_valid_trade_accepts_what_the_balance_covers() {
    let (ledger, id) = open_market();
    let (ok, change) = check_valid_trade(id, "bob", 0, &a("-1000"), &ledger).unwrap();
    assert!(ok);
    assert_eq!(change.to_decimal(), d("-1000"));
    let (ok, change) = check_valid_trade(id, "bob", 1, &a("-1000.01"), &ledger).unwrap();
    assert!(!ok);
    assert_eq!(change.to_decimal(), d("-1000.01"));
    let (ok, change) = check_valid_trade(id, "bob", 1, &a("3"), &ledger).unwrap();
    assert!(ok);
    assert_eq!(change.to_decimal(), d("3"));
}

#[test]
fn check_valid_trade_rejects_outcomes_that_do_not_exist() {
    let (ledger, id) = open_market();
    let (ok, change) = check_valid_trade(id, "bob", 2, &a("-1"), &ledger).unwrap();
    assert!(!ok);
    assert_eq!(change.to_decimal(), d("0"));
    let (ok, change) = check_valid_trade(id, "bob", -1, &a("-1"), &ledger).unwrap();
    assert!(!ok);
    assert_eq!(change.to_decimal(), d("0"));
}

#[test]
fn check_valid_trade_names_the_missing_row() {
    let (ledger, id) = open_market();
    assert_eq!(
        check_valid_trade(id, "nobody", 0, &a("-1"), &ledger).err(),
        Some(MarketError::UnknownUser)
    );
    assert_eq!(
        check_valid_trade(id + 1, "bob", 0, &a("-1"), &ledger).err(),
        Some(MarketError::UnknownMarket)
    );
    assert_eq!(
        check_valid_trade(id + 1, "nobody", 0, &a("-1"), &ledger).err(),
        Some(MarketError::UnknownUser)
    );
}

#[test]
fn create_trade_moves_balance_history_and_shares_together() {
    let (mut ledger, id) = open_market();
    assert_eq!(create_trade(id, "bob", &a("10"), 0, &a("-6"), &mut ledger), Ok(()));
    assert_eq!(balance_in(&ledger, "bob"), d("994"));
    assert_eq!(balance_in(&ledger, "alice"), d("900"));
    assert_eq!(bought(&ledger, id), vec![d("10"), d("0")]);
    assert_eq!(ledger.trades.len(), 1);
    let t = &ledger.trades[0];
    assert_eq!(t.id, 1);
    assert_eq!(t.market_id, id);
    assert_eq!(t.user_id, "bob");
    assert_eq!(t.shares_amount.to_decimal(), d("10"));
    assert_eq!(t.share_index, 0);
    assert_eq!(t.balance_change.to_decimal(), d("-6"));
    assert_eq!(create_trade(id, "bob", &a("-3"), 0, &a("1.75"), &mut ledger), Ok(()));
    assert_eq!(create_trade(id, "alice", &a("2.5"), 1, &a("-1"), &mut ledger), Ok(()));
    assert_eq!(balance_in(&ledger, "bob"), d("995.75"));
    assert_eq!(balance_in(&ledger, "alice"), d("899"));
    assert_eq!(bought(&ledger, id), vec![d("7"), d("2.5")]);
    assert_eq!(ledger.trades[2].id, 3);
    assert!(ledger.is_well_formed());
}

#[test]
fn create_trade_refuses_what_validation_rejects() {
    let (mut ledger, id) = open_market();
    let r = create_trade(id, "bob", &a("5000"), 0, &a("-1000.5"), &mut ledger);
    assert_eq!(r, Err(MarketError::InvalidTrade));
    let r = create_trade(id, "bob", &a("1"), 2, &a("-1"), &mut ledger);
    assert_eq!(r, Err(MarketError::InvalidTrade));
    let r = create_trade(id, "nobody", &a("1"), 0, &a("-1"), &mut ledger);
    assert_eq!(r, Err(MarketError::UnknownUser));
    let r = create_trade(77, "bob", &a("1"), 0, &a("-1"), &mut ledger);
    assert_eq!(r, Err(MarketError::UnknownMarket));
    assert_eq!(balance_in(&ledger, "bob"), d("1000"));
    assert_eq!(bought(&ledger, id), vec![d("0"), d("0")]);
    assert_eq!(ledger.trades.len(), 0);
}

#[test]
fn stale_validation_does_not_get_past_execution() {
    let (mut ledger, id) = open_market();
    let price = a("-600");
    let (first, _) = check_valid_trade(id, "bob", 0, &price, &ledger).unwrap();
    let (second, _) = check_valid_trade(id, "bob", 1, &price, &ledger).unwrap();
    assert!(first && second);
    assert_eq!(create_trade(id, "bob", &a("700"), 0, &price, &mut ledger), Ok(()));
    assert_eq!(
        create_trade(id, "bob", &a("700"), 1, &price, &mut ledger),
        Err(MarketError::InvalidTrade)
    );
    assert_eq!(balance_in(&ledger, "bob"), d("400"));
    assert_eq!(bought(&ledger, id), vec![d("700"), d("0")]);
}

#[test]
fn accepted_trades_never_leave_a_balance_below_zero() {
    let (mut ledger, id) = open_market();
    change_balance("alice", &a("100"), &mut ledger).unwrap();
    let prices = ["-400", "-400", "150.5", "-400", "-0.5", "-350", "-0.01"];
    for (n, p) in prices.iter().enumerate() {
        let index = (n % 2) as i32;
        let _ = create_trade(id, "bob", &a("1"), index, &a(p), &mut ledger);
        for u in ledger.users.iter() {
            assert!(u.balance.is_non_negative());
        }
    }
    assert_eq!(balance_in(&ledger, "bob"), d("0"));
    assert_eq!(ledger.trades.len(), 5);
}

#[test]
fn create_trade_fails_when_ids_are_used_up() {
    let (mut ledger, id) = open_market();
    create_trade(id, "bob", &a("1"), 0, &a("-1"), &mut ledger).unwrap();
    ledger.trades[0].id = i32::MAX;
    assert!(ledger.is_well_formed());
    let r = create_trade(id, "bob", &a("1"), 0, &a("-1"), &mut ledger);
    assert_eq!(r, Err(MarketError::PersistenceError));
    assert_eq!(balance_in(&ledger, "bob"), d("999"));
    assert_eq!(bought(&ledger, id), vec![d("1"), d("0")]);
}

#[test]
fn buying_ten_shares_at_liquidity_one_hundred() {
    let (mut ledger, id) = open_market();
    let cost_before = lmsr_cost(100.0, &[0.0, 0.0]);
    let cost_after = lmsr_cost(100.0, &[10.0, 0.0]);
    assert!((cost_before - 69.31).abs() < 1e-2);
    assert!((cost_after - 100.0 * (0.1f64.exp() + 1.0).ln()).abs() < 1e-9);
    assert!((cost_after - 74.44).abs() < 1e-2);
    let before = Amount::from_decimal(BigDecimal::from_f64(cost_before).unwrap()).unwrap();
    let after = Amount::from_decimal(BigDecimal::from_f64(cost_after).unwrap()).unwrap();
    let change = balance_change(&before, &after);
    assert!((change.to_decimal().to_f64().unwrap() - (-5.13)).abs() < 1e-2);
    let (ok, priced) = check_valid_trade(id, "bob", 0, &change, &ledger).unwrap();
    assert!(ok);
    assert_eq!(priced.to_decimal(), change.to_decimal());
    assert_eq!(create_trade(id, "bob", &a("10"), 0, &change, &mut ledger), Ok(()));
    assert_eq!(bought(&ledger, id), vec![d("10"), d("0")]);
    assert_eq!(balance_in(&ledger, "bob"), d("1000") + change.to_decimal());
    assert!((balance_in(&ledger, "bob").to_f64().unwrap() - 994.87).abs() < 1e-2);
}

#[test]
fn buying_and_selling_back_costs_nothing() {
    let (mut ledger, id) = open_market();
    let shares = vec![a("3"), a("1.5")];
    let raised = shares_after(&shares, 1, &a("2.25"));
    assert_eq!(raised[0].to_decimal(), d("3"));
    assert_eq!(raised[1].to_decimal(), d("3.75"));
    let back = shares_after(&raised, 1, &a("-2.25"));
    assert_eq!(back[0].to_decimal(), d("3"));
    assert_eq!(back[1].to_decimal(), d("1.5"));
    let c0 = a("69.3147");
    let c1 = a("70.4453");
    let buy = balance_change(&c0, &c1);
    let sell = balance_change(&c1, &c0);
    assert_eq!(buy.to_decimal(), d("-1.1306"));
    assert_eq!(sell.to_decimal(), d("1.1306"));
    create_trade(id, "bob", &a("2.25"), 1, &buy, &mut ledger).unwrap();
    create_trade(id, "bob", &a("-2.25"), 1, &sell, &mut ledger).unwrap();
    assert_eq!(balance_in(&ledger, "bob"), d("1000"));
    assert_eq!(bought(&ledger, id), vec![d("0"), d("0")]);
}
