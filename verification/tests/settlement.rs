use bigdecimal::BigDecimal;
use pmarket::accounts::create_user;
use pmarket::amount::Amount;
use pmarket::history::{get_balance_changes_on_market, get_positions, holdings};
use pmarket::model::{Ledger, MarketError, Trade, User};
use pmarket::pricing::check_pricing_inputs;
use pmarket::settlement::resolve_market;
use pmarket::trading::{check_valid_trade, create_market, create_trade};
use std::str::FromStr;

fn num(s: &str) -> BigDecimal {
    BigDecimal::from_str(s).unwrap()
}

fn amt(s: &str) -> Amount {
    Amount::from_decimal(num(s)).unwrap()
}

fn balance_at(ledger: &Ledger, id: &str) -> BigDecimal {
    let i = ledger.find_user(id).unwrap();
    ledger.users[i].balance.to_decimal()
}

fn traded_market() -> (Ledger, i32) {
    let mut ledger = Ledger::new();
    create_user("alice", &mut ledger).unwrap();
    create_user("bob", &mut ledger).unwrap();
    create_user("carol", &mut ledger).unwrap();
    create_user("dave", &mut ledger).unwrap();
    let other = create_market("Other", "", "dave", &amt("50"), &mut ledger).unwrap();
    let id = create_market("Rain?", "", "alice", &amt("100"), &mut ledger).unwrap();
    create_trade(id, "bob", &amt("10"), 0, &amt("-6"), &mut ledger).unwrap();
    create_trade(other, "bob", &amt("1"), 0, &amt("-0.5"), &mut ledger).unwrap();
    create_trade(id, "carol", &amt("4"), 1, &amt("-2.5"), &mut ledger).unwrap();
    create_trade(id, "bob", &amt("-3"), 0, &amt("1.75"), &mut ledger).unwrap();
    create_trade(id, "bob", &amt("2"), 1, &amt("-1.25"), &mut ledger).unwrap();
    (ledger, id)
}

#[test]
fn positions_add_up_share_quantities_by_user_and_outcome() {
    let (ledger, id) = traded_market();
    let positions = get_positions(id, &ledger).unwrap();
    assert_eq!(positions.len(), 2);
    assert_eq!(positions[0].0, "bob");
    assert_eq!(positions[0].1.len(), 2);
    assert_eq!(positions[0].1[0].to_decimal(), num("7"));
    assert_eq!(positions[0].1[1].to_decimal(), num("2"));
    assert_eq!(positions[1].0, "carol");
    assert_eq!(positions[1].1[0].to_decimal(), num("0"));
    assert_eq!(positions[1].1[1].to_decimal(), num("4"));
}

#[test]
fn balance_changes_add_up_by_user() {
    let (ledger, id) = traded_market();
    let changes = get_balance_changes_on_market(id, &ledger).unwrap();
    assert_eq!(changes.len(), 2);
    assert_eq!(changes[0].0, "bob");
    assert_eq!(changes[0].1.to_decimal(), num("-5.5"));
    assert_eq!(changes[1].0, "carol");
    assert_eq!(changes[1].1.to_decimal(), num("-2.5"));
    let other = get_balance_changes_on_market(1, &ledger).unwrap();
    assert_eq!(other.len(), 1);
    assert_eq!(other[0].0, "bob");
    assert_eq!(other[0].1.to_decimal(), num("-0.5"));
}

#[test]
fn a_market_without_trades_has_no_positions() {
    let (ledger, _) = traded_market();
    assert_eq!(get_positions(99, &ledger).unwrap().len(), 0);
    assert_eq!(get_balance_changes_on_market(99, &ledger).unwrap().len(), 0);
    assert_eq!(holdings(99, &ledger).len(), 0);
}

#[test]
fn holdings_list_each_trader_once() {
    let (ledger, id) = traded_market();
    let hs = holdings(id, &ledger);
    assert_eq!(hs.len(), 2);
    assert_eq!(hs[0].user_id, "bob");
    assert_eq!(hs[0].balance_change.to_decimal(), num("-5.5"));
    assert_eq!(hs[0].shares[0].to_decimal(), num("7"));
    assert_eq!(hs[1].user_id, "carol");
    assert_eq!(hs[1].shares[1].to_decimal(), num("4"));
}

#[test]
fn resolution_pays_the_winning_outcome_and_the_owner_the_rest() {
    let (mut ledger, id) = traded_market();
    assert_eq!(balance_at(&ledger, "alice"), num("900"));
    assert_eq!(balance_at(&ledger, "bob"), num("994"));
    assert_eq!(balance_at(&ledger, "carol"), num("997.5"));
    assert_eq!(resolve_market(id, Some(0), &mut ledger), Ok(()));
    assert_eq!(balance_at(&ledger, "bob"), num("1001"));
    assert_eq!(balance_at(&ledger, "carol"), num("997.5"));
    assert_eq!(balance_at(&ledger, "alice"), num("1001"));
    assert_eq!(balance_at(&ledger, "dave"), num("950"));
    let m = &ledger.markets[ledger.find_market(id).unwrap()];
    assert!(m.is_resolved);
    assert_eq!(m.resolution, Some(0));
    assert_eq!(m.bought_shares[0].to_decimal(), num("7"));
    assert_eq!(m.bought_shares[1].to_decimal(), num("6"));
    assert!(!ledger.markets[0].is_resolved);
    assert_eq!(ledger.trades.len(), 5);
    assert!(ledger.is_well_formed());
}

#[test]
fn resolution_with_the_other_outcome() {
    let (mut ledger, id) = traded_market();
    assert_eq!(resolve_market(id, Some(1), &mut ledger), Ok(()));
    assert_eq!(balance_at(&ledger, "bob"), num("996"));
    assert_eq!(balance_at(&ledger, "carol"), num("1001.5"));
    assert_eq!(balance_at(&ledger, "alice"), num("1002"));
}

#[test]
fn resolution_hands_out_the_whole_bankroll() {
    for outcome in [0, 1] {
        let (mut ledger, id) = traded_market();
        let before: Vec<BigDecimal> = ledger.users.iter().map(|u| u.balance.to_decimal()).collect();
        let taken: BigDecimal = get_balance_changes_on_market(id, &ledger)
            .unwrap()
            .iter()
            .map(|e| e.1.to_decimal())
            .sum();
        resolve_market(id, Some(outcome), &mut ledger).unwrap();
        let after: Vec<BigDecimal> = ledger.users.iter().map(|u| u.balance.to_decimal()).collect();
        let paid: BigDecimal = after.iter().zip(before.iter()).map(|(x, y)| x - y).sum();
        assert_eq!(paid, num("100") - taken);
        assert_eq!(paid, num("108"));
    }
}

#[test]
fn an_owner_who_trades_is_paid_as_trader_and_as_owner() {
    let (mut ledger, id) = traded_market();
    create_trade(id, "alice", &amt("1"), 0, &amt("-0.5"), &mut ledger).unwrap();
    assert_eq!(resolve_market(id, Some(0), &mut ledger), Ok(()));
    assert_eq!(balance_at(&ledger, "bob"), num("1001"));
    assert_eq!(balance_at(&ledger, "alice"), num("1001"));
}

#[test]
fn cancellation_undoes_the_trades_and_refunds_the_owner() {
    let (mut ledger, id) = traded_market();
    assert_eq!(resolve_market(id, None, &mut ledger), Ok(()));
    assert_eq!(balance_at(&ledger, "bob"), num("999.5"));
    assert_eq!(balance_at(&ledger, "carol"), num("1000"));
    assert_eq!(balance_at(&ledger, "alice"), num("1000"));
    assert_eq!(balance_at(&ledger, "dave"), num("950"));
    let m = &ledger.markets[ledger.find_market(id).unwrap()];
    assert!(m.is_resolved);
    assert_eq!(m.resolution, None);
}

#[test]
fn resolution_is_refused_with_its_reason() {
    let (mut ledger, id) = traded_market();
    assert_eq!(resolve_market(99, Some(0), &mut ledger), Err(MarketError::UnknownMarket));
    assert_eq!(resolve_market(id, Some(2), &mut ledger), Err(MarketError::InvalidOutcome));
    assert_eq!(resolve_market(id, Some(-1), &mut ledger), Err(MarketError::InvalidOutcome));
    assert_eq!(balance_at(&ledger, "bob"), num("994"));
    assert_eq!(resolve_market(id, None, &mut ledger), Ok(()));
    assert_eq!(resolve_market(id, Some(0), &mut ledger), Err(MarketError::AlreadyResolved));
    assert_eq!(resolve_market(id, None, &mut ledger), Err(MarketError::AlreadyResolved));
    assert_eq!(balance_at(&ledger, "bob"), num("999.5"));
    assert_eq!(balance_at(&ledger, "alice"), num("1000"));
}

#[test]
fn a_resolved_market_takes_no_trades() {
    let (mut ledger, id) = traded_market();
    resolve_market(id, Some(1), &mut ledger).unwrap();
    let (ok, change) = check_valid_trade(id, "bob", 0, &amt("-1"), &ledger).unwrap();
    assert!(!ok);
    assert_eq!(change.to_decimal(), num("0"));
    assert_eq!(
        create_trade(id, "bob", &amt("1"), 0, &amt("-1"), &mut ledger),
        Err(MarketError::InvalidTrade)
    );
    assert_eq!(ledger.trades.len(), 5);
}

#[test]
fn pricing_inputs_are_tested_before_pricing() {
    let two = vec![amt("0"), amt("0")];
    let three = vec![amt("0"), amt("0"), amt("0")];
    assert_eq!(check_pricing_inputs(&amt("100"), &two, 0), Ok(()));
    assert_eq!(check_pricing_inputs(&amt("0.01"), &two, 1), Ok(()));
    assert_eq!(check_pricing_inputs(&amt("0"), &two, 0), Err(MarketError::InvalidLiquidity));
    assert_eq!(check_pricing_inputs(&amt("-5"), &three, 7), Err(MarketError::InvalidLiquidity));
    assert_eq!(check_pricing_inputs(&amt("100"), &three, 0), Err(MarketError::InvalidOutcome));
    assert_eq!(check_pricing_inputs(&amt("100"), &two, 2), Err(MarketError::InvalidOutcome));
    assert_eq!(check_pricing_inputs(&amt("100"), &two, -1), Err(MarketError::InvalidOutcome));
}

#[test]
fn ill_formed_ledgers_are_told_apart() {
    let (ledger, _) = traded_market();
    assert!(ledger.is_well_formed());
    assert!(Ledger::new().is_well_formed());

    let (mut twice, _) = traded_market();
    twice.users.push(User { id: "bob".to_string(), balance: amt("1") });
    assert!(!twice.is_well_formed());

    let (mut ids, _) = traded_market();
    ids.markets[1].id = 1;
    assert!(!ids.is_well_formed());

    let (mut shares, _) = traded_market();
    shares.markets[0].bought_shares.push(amt("0"));
    assert!(!shares.is_well_formed());

    let (mut owner, _) = traded_market();
    owner.markets[0].owner_id = "nobody".to_string();
    assert!(!owner.is_well_formed());

    let (mut outcome, _) = traded_market();
    outcome.markets[0].resolution = Some(0);
    assert!(!outcome.is_well_formed());
    outcome.markets[0].is_resolved = true;
    assert!(outcome.is_well_formed());
    outcome.markets[0].resolution = Some(2);
    assert!(!outcome.is_well_formed());

    let (mut trade, _) = traded_market();
    trade.trades.push(Trade {
        id: 100,
        market_id: 1,
        user_id: "bob".to_string(),
        shares_amount: amt("1"),
        share_index: 2,
        balance_change: amt("0"),
    });
    assert!(!trade.is_well_formed());
    trade.trades[5].share_index = 1;
    assert!(trade.is_well_formed());
    trade.trades[5].user_id = "nobody".to_string();
    assert!(!trade.is_well_formed());
    trade.trades[5].user_id = "carol".to_string();
    trade.trades[5].id = 5;
    assert!(!trade.is_well_formed());
}

#[test]
fn rows_are_found_by_their_ids() {
    let (ledger, id) = traded_market();
    let bob = ledger.get_user("bob").unwrap();
    assert_eq!(bob.id, "bob");
    assert_eq!(bob.balance.to_decimal(), num("994"));
    assert!(ledger.get_user("nobody").is_none());
    let market = ledger.get_market(id).unwrap();
    assert_eq!(market.id, id);
    assert_eq!(market.title, "Rain?");
    assert_eq!(market.owner_id, "alice");
    assert!(ledger.get_market(0).is_none());
    assert_eq!(ledger.find_user("carol"), Some(2));
    assert_eq!(ledger.find_market(id), Some(1));
}

#[test]
fn a_trade_moves_its_price_between_the_balances_and_the_bankroll() {
    let (mut ledger, id) = traded_market();
    let total = |l: &Ledger| -> BigDecimal { l.users.iter().map(|u| u.balance.to_decimal()).sum() };
    let taken = |l: &Ledger| -> BigDecimal {
        get_balance_changes_on_market(id, l).unwrap().iter().map(|e| e.1.to_decimal()).sum()
    };
    let before = total(&ledger);
    let escrow = num("100") - taken(&ledger);
    assert_eq!(escrow, num("108"));
    create_trade(id, "carol", &amt("5"), 0, &amt("-3.2"), &mut ledger).unwrap();
    assert_eq!(total(&ledger), &before - num("3.2"));
    assert_eq!(num("100") - taken(&ledger), num("111.2"));
    create_trade(id, "carol", &amt("-5"), 0, &amt("3.1"), &mut ledger).unwrap();
    assert_eq!(total(&ledger), &before - num("0.1"));
    assert_eq!(num("100") - taken(&ledger), num("108.1"));
    resolve_market(id, None, &mut ledger).unwrap();
    assert_eq!(total(&ledger), before + num("108"));
}
