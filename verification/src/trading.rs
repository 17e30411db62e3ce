//! Opening markets, and validating and executing trades.

use crate::accounts::{credit_at, credited};
use crate::amount::Amount;
use crate::model::{valid_outcome, Ledger, Market, MarketError, NewMarket, NewTrade, Trade};
use vstd::prelude::*;

verus! {

/// The id that the next market gets: one more than the last market's.
pub open spec fn next_market_id(ledger: Ledger) -> int {
    if ledger.markets.len() == 0 {
        1
    } else {
        ledger.markets@.last().id + 1
    }
}

/// The id that the next trade gets: one more than the last trade's.
pub open spec fn next_trade_id(ledger: Ledger) -> int {
    if ledger.trades.len() == 0 {
        1
    } else {
        ledger.trades@.last().id + 1
    }
}

/// `m` is the market that `row` opens under `id`: nothing bought yet, not
/// resolved.
pub open spec fn opened(m: Market, id: i32, row: NewMarket) -> bool {
    &&& m.id == id
    &&& m.title@ == row.title@
    &&& m.description@ == row.description@
    &&& m.owner_id@ == row.owner_id@
    &&& m.liquidity@ == row.liquidity@
    &&& m.shares() == seq![0real, 0real]
    &&& !m.is_resolved
    &&& m.resolution.is_none()
}

/// What a trade is made of: who trades what on which market, and at what
/// price.
pub struct TradeTerms {
    pub market_id: i32,
    pub user: Seq<char>,
    pub quantity: real,
    pub share_index: i32,
    pub change: real,
}

/// The terms of the trade that `row` asks for.
pub open spec fn terms_of(row: NewTrade) -> TradeTerms {
    TradeTerms {
        market_id: row.market_id,
        user: row.user_id@,
        quantity: row.shares_amount@,
        share_index: row.share_index,
        change: row.balance_change@,
    }
}

/// `t` is the trade of these terms, recorded under `id`.
pub open spec fn recorded(t: Trade, id: i32, terms: TradeTerms) -> bool {
    &&& t.id == id
    &&& t.market_id == terms.market_id
    &&& t.user_id@ == terms.user
    &&& t.shares_amount@ == terms.quantity
    &&& t.share_index == terms.share_index
    &&& t.balance_change@ == terms.change
}

/// `after` is `before` but for the quantities bought, of which the one of
/// outcome `index` has grown by `quantity`.
pub open spec fn shares_raised(before: Market, after: Market, index: int, quantity: real) -> bool {
    &&& after.id == before.id
    &&& after.title == before.title
    &&& after.description == before.description
    &&& after.owner_id == before.owner_id
    &&& after.liquidity == before.liquidity
    &&& after.is_resolved == before.is_resolved
    &&& after.resolution == before.resolution
    &&& after.shares() == before.shares().update(index, before.shares()[index] + quantity)
}

/// Appends a market row under the next id, with nothing bought.
///
/// Fails with `UnknownUser` where the owner is no user, and with
/// `PersistenceError` where the ids are used up; the ledger is then
/// unchanged.
pub fn insert_market(row: NewMarket, ledger: &mut Ledger) -> (r: Result<i32, MarketError>)
    requires
        old(ledger).wf(),
    ensures
        final(ledger).wf(),
        final(ledger).users == old(ledger).users,
        final(ledger).trades == old(ledger).trades,
        r.is_ok() <==> old(ledger).has_user(row.owner_id@) && next_market_id(*old(ledger))
            <= i32::MAX,
        r matches Err(e) ==> *final(ledger) == *old(ledger) && e == (if old(ledger).has_user(
            row.owner_id@,
        ) {
            MarketError::PersistenceError
        } else {
            MarketError::UnknownUser
        }),
        r matches Ok(id) ==> {
            &&& id == next_market_id(*old(ledger))
            &&& final(ledger).markets@.len() == old(ledger).markets@.len() + 1
            &&& final(ledger).markets@.drop_last() == old(ledger).markets@
            &&& opened(final(ledger).markets@.last(), id, row)
        },
{
    if ledger.find_user(row.owner_id.as_str()).is_none() {
        return Err(MarketError::UnknownUser);
    }
    let n = ledger.markets.len();
    let mut id: i32 = 1;
    if n > 0 {
        let last = ledger.markets[n - 1].id;
        if last == i32::MAX {
            return Err(MarketError::PersistenceError);
        }
        id = last + 1;
    }
    let mut bought_shares: Vec<Amount> = Vec::new();
    bought_shares.push(Amount::zero());
    bought_shares.push(Amount::zero());
    let ghost before = *ledger;
    let market = Market {
        id,
        title: row.title,
        description: row.description,
        owner_id: row.owner_id,
        liquidity: row.liquidity,
        bought_shares,
        is_resolved: false,
        resolution: None,
    };
    assert(market.shares() =~= seq![0real, 0real]);
    ledger.markets.push(market);
    proof {
        let after = *ledger;
        assert(after.markets@.drop_last() =~= before.markets@);
        assert forall|i: int, j: int| 0 <= i < j < after.markets.len() implies (
        #[trigger] after.markets[i]).id < (#[trigger] after.markets[j]).id by {
            if j == n {
                if i < n - 1 {
                    assert(before.markets[i].id < before.markets[n - 1].id);
                }
            } else {
                assert(before.markets[i].id < before.markets[j].id);
            }
        }
        assert(after.users@ == before.users@);
        assert forall|i: int| 0 <= i < after.markets.len() implies (#[trigger] after.markets[i]).wf()
            && after.has_user(after.markets[i].owner_id@) by {
            if i < n {
                assert(after.markets[i] == before.markets[i]);
                assert(before.markets[i].wf());
            } else {
                assert(after.markets[i].bought_shares@.len() == 2);
            }
        }
    }
    Ok(id)
}

/// Opens a market: takes `liquidity` from the owner's balance into escrow
/// and inserts the market with nothing bought. Returns the market's id.
///
/// Both steps happen or neither does. The owner's balance is not held to a
/// floor. Fails with `UnknownUser` where the owner is no user, and with
/// `PersistenceError` where the market ids are used up.
pub fn create_market(
    title: &str,
    description: &str,
    owner_id: &str,
    liquidity: &Amount,
    ledger: &mut Ledger,
) -> (r: Result<i32, MarketError>)
    requires
        old(ledger).wf(),
    ensures
        final(ledger).wf(),
        final(ledger).trades == old(ledger).trades,
        r.is_ok() <==> old(ledger).has_user(owner_id@) && next_market_id(*old(ledger))
            <= i32::MAX,
        r matches Err(e) ==> *final(ledger) == *old(ledger) && e == (if old(ledger).has_user(
            owner_id@,
        ) {
            MarketError::PersistenceError
        } else {
            MarketError::UnknownUser
        }),
        r matches Ok(id) ==> {
            &&& id == next_market_id(*old(ledger))
            &&& credited(*old(ledger), *final(ledger), owner_id@, -liquidity@)
            &&& final(ledger).markets@.len() == old(ledger).markets@.len() + 1
            &&& final(ledger).markets@.drop_last() == old(ledger).markets@
            &&& {
                let m = final(ledger).markets@.last();
                &&& m.id == id
                &&& m.title@ == title@
                &&& m.description@ == description@
                &&& m.owner_id@ == owner_id@
                &&& m.liquidity@ == liquidity@
                &&& m.shares() == seq![0real, 0real]
                &&& !m.is_resolved
                &&& m.resolution.is_none()
            }
        },
{
    let row = NewMarket {
        title: title.to_owned(),
        description: description.to_owned(),
        owner_id: owner_id.to_owned(),
        liquidity: liquidity.clone(),
    };
    let id = match insert_market(row, ledger) {
        Ok(id) => id,
        Err(e) => {
            return Err(e);
        },
    };
    match ledger.find_user(owner_id) {
        Some(i) => {
            let debit = liquidity.negated();
            credit_at(ledger, i, &debit);
        },
        None => {
            proof {
                assert(false);
            }
        },
    }
    Ok(id)
}

/// Whether a trade that changes the user's balance by `change` passes
/// validation: the market is open, the outcome exists, and the balance
/// stays at zero or above.
pub open spec fn trade_accepted(
    ledger: Ledger,
    market_id: i32,
    user: Seq<char>,
    share_index: i32,
    change: real,
) -> bool {
    &&& ledger.has_user(user)
    &&& ledger.has_market(market_id)
    &&& !ledger.market(market_id).is_resolved
    &&& valid_outcome(share_index)
    &&& ledger.balance_of(user) + change >= 0real
}

/// Validates a trade whose price, `balance_change`, the caller has worked
/// out from the market's liquidity and the quantities bought so far.
///
/// Returns whether the trade is accepted, and the balance change it will
/// make. A trade on a resolved market, or on an outcome that the market
/// does not have, is rejected with a balance change of zero; any other is
/// accepted exactly if the balance does not fall below zero. Fails with
/// `UnknownUser`, then with `UnknownMarket`, where the row is missing.
pub fn check_valid_trade(
    market_id: i32,
    user_id: &str,
    share_index: i32,
    balance_change: &Amount,
    ledger: &Ledger,
) -> (r: Result<(bool, Amount), MarketError>)
    requires
        ledger.wf(),
    ensures
        r.is_ok() <==> ledger.has_user(user_id@) && ledger.has_market(market_id),
        r matches Err(e) ==> e == (if ledger.has_user(user_id@) {
            MarketError::UnknownMarket
        } else {
            MarketError::UnknownUser
        }),
        r matches Ok(v) ==> {
            &&& v.0 == trade_accepted(*ledger, market_id, user_id@, share_index, balance_change@)
            &&& v.1@ == (if ledger.market(market_id).is_resolved || !valid_outcome(share_index) {
                0real
            } else {
                balance_change@
            })
        },
{
    let ui = match ledger.find_user(user_id) {
        Some(i) => i,
        None => {
            return Err(MarketError::UnknownUser);
        },
    };
    let mi = match ledger.find_market(market_id) {
        Some(i) => i,
        None => {
            return Err(MarketError::UnknownMarket);
        },
    };
    if ledger.markets[mi].is_resolved || share_index < 0 || share_index >= 2 {
        return Ok((false, Amount::zero()));
    }
    let new_balance = ledger.users[ui].balance.plus(balance_change);
    Ok((new_balance.is_non_negative(), balance_change.clone()))
}

/// Whether no user's balance is below zero.
pub open spec fn all_non_negative(ledger: Ledger) -> bool {
    forall|u: Seq<char>| ledger.has_user(u) ==> #[trigger] ledger.balance_of(u) >= 0real
}

/// The error with which [`create_trade`] refuses a trade.
pub open spec fn trade_refusal(
    ledger: Ledger,
    market_id: i32,
    user: Seq<char>,
    share_index: i32,
    change: real,
) -> MarketError {
    if !ledger.has_user(user) {
        MarketError::UnknownUser
    } else if !ledger.has_market(market_id) {
        MarketError::UnknownMarket
    } else if !trade_accepted(ledger, market_id, user, share_index, change) {
        MarketError::InvalidTrade
    } else {
        MarketError::PersistenceError
    }
}

/// What an executed trade leaves behind: the user's balance changed, the
/// trade appended to the history, and the market's quantity of the traded
/// outcome raised; nothing else moved.
pub open spec fn trade_executed(before: Ledger, after: Ledger, terms: TradeTerms) -> bool {
    let mi = before.market_index(terms.market_id);
    &&& credited(before, after, terms.user, terms.change)
    &&& after.trades@.len() == before.trades@.len() + 1
    &&& after.trades@.drop_last() == before.trades@
    &&& recorded(after.trades@.last(), next_trade_id(before) as i32, terms)
    &&& after.markets@.len() == before.markets@.len()
    &&& forall|j: int|
        0 <= j < before.markets@.len() && j != mi ==> #[trigger] after.markets[j]
            == before.markets[j]
    &&& shares_raised(
        before.markets[mi],
        after.markets[mi],
        terms.share_index as int,
        terms.quantity,
    )
}

/// Appends a trade row under the next id, and raises the market's quantity
/// of the traded outcome. Balances are not touched.
pub(crate) fn insert_trade(row: NewTrade, id: i32, mi: usize, ledger: &mut Ledger)
    requires
        old(ledger).wf(),
        mi < old(ledger).markets.len(),
        old(ledger).markets[mi as int].id == row.market_id,
        old(ledger).has_user(row.user_id@),
        valid_outcome(row.share_index),
        id == next_trade_id(*old(ledger)),
    ensures
        final(ledger).wf(),
        final(ledger).users == old(ledger).users,
        final(ledger).trades@.len() == old(ledger).trades@.len() + 1,
        final(ledger).trades@.drop_last() == old(ledger).trades@,
        recorded(final(ledger).trades@.last(), id, terms_of(row)),
        final(ledger).markets@.len() == old(ledger).markets@.len(),
        forall|j: int|
            0 <= j < old(ledger).markets@.len() && j != mi ==> #[trigger] final(ledger).markets[j]
                == old(ledger).markets[j],
        shares_raised(
            old(ledger).markets[mi as int],
            final(ledger).markets[mi as int],
            row.share_index as int,
            row.shares_amount@,
        ),
{
    let ghost before = *ledger;
    let n = ledger.trades.len();
    let index = row.share_index as usize;
    let raised = ledger.markets[mi].bought_shares[index].plus(&row.shares_amount);
    let trade = Trade {
        id,
        market_id: row.market_id,
        user_id: row.user_id,
        shares_amount: row.shares_amount,
        share_index: row.share_index,
        balance_change: row.balance_change,
    };
    ledger.trades.push(trade);
    ledger.markets[mi].bought_shares[index] = raised;
    proof {
        let after = *ledger;
        assert(before.markets[mi as int].wf());
        assert(after.trades@.drop_last() =~= before.trades@);
        assert(after.markets[mi as int].shares() =~= before.markets[mi as int].shares().update(
            index as int,
            before.markets[mi as int].shares()[index as int] + row.shares_amount@,
        ));
        assert forall|i: int, j: int| 0 <= i < j < after.trades.len() implies (
        #[trigger] after.trades[i]).id < (#[trigger] after.trades[j]).id by {
            if j == n {
                if i < n - 1 {
                    assert(before.trades[i].id < before.trades[n - 1].id);
                }
            } else {
                assert(before.trades[i].id < before.trades[j].id);
            }
        }
        assert forall|i: int, j: int| 0 <= i < j < after.markets.len() implies (
        #[trigger] after.markets[i]).id < (#[trigger] after.markets[j]).id by {
            assert(before.markets[i].id < before.markets[j].id);
        }
        assert(after.users@ == before.users@);
        assert forall|i: int| 0 <= i < after.markets.len() implies (#[trigger] after.markets[i]).wf()
            && after.has_user(after.markets[i].owner_id@) by {
            assert(before.markets[i].wf());
            assert(after.markets[i].owner_id == before.markets[i].owner_id);
            assert(after.markets[i].bought_shares@.len() == 2);
        }
        assert forall|i: int| 0 <= i < after.trades.len() implies valid_outcome(
            (#[trigger] after.trades[i]).share_index,
        ) && after.has_user(after.trades[i].user_id@) by {
            if i < n {
                assert(after.trades[i] == before.trades[i]);
            }
        }
    }
}

/// Executes a trade of `shares_amount` shares of outcome `share_index`,
/// priced by the caller at `balance_change`.
///
/// The trade is validated as [`check_valid_trade`] does, here and now, on
/// the very state that it then changes. Where it is accepted, the user's
/// balance changes by `balance_change`, the trade joins the history and the
/// market's quantity of the outcome grows by `shares_amount`: all three or
/// none. The user's balance is then zero or more. A rejected trade fails
/// with `InvalidTrade`.
pub fn create_trade(
    market_id: i32,
    user_id: &str,
    shares_amount: &Amount,
    share_index: i32,
    balance_change: &Amount,
    ledger: &mut Ledger,
) -> (r: Result<(), MarketError>)
    requires
        old(ledger).wf(),
    ensures
        final(ledger).wf(),
        r.is_ok() <==> trade_accepted(
            *old(ledger),
            market_id,
            user_id@,
            share_index,
            balance_change@,
        ) && next_trade_id(*old(ledger)) <= i32::MAX,
        r matches Err(e) ==> *final(ledger) == *old(ledger) && e == trade_refusal(
            *old(ledger),
            market_id,
            user_id@,
            share_index,
            balance_change@,
        ),
        r.is_ok() ==> final(ledger).balance_of(user_id@) >= 0real,
        all_non_negative(*old(ledger)) ==> all_non_negative(*final(ledger)),
        r.is_ok() ==> trade_executed(
            *old(ledger),
            *final(ledger),
            (TradeTerms {
                market_id,
                user: user_id@,
                quantity: shares_amount@,
                share_index,
                change: balance_change@,
            }),
        ),
{
    let (is_valid, change) = match check_valid_trade(
        market_id,
        user_id,
        share_index,
        balance_change,
        ledger,
    ) {
        Ok(v) => v,
        Err(e) => {
            return Err(e);
        },
    };
    if !is_valid {
        return Err(MarketError::InvalidTrade);
    }
    let n = ledger.trades.len();
    let mut id: i32 = 1;
    if n > 0 {
        let last = ledger.trades[n - 1].id;
        if last == i32::MAX {
            return Err(MarketError::PersistenceError);
        }
        id = last + 1;
    }
    let ui = match ledger.find_user(user_id) {
        Some(i) => i,
        None => {
            return Err(MarketError::UnknownUser);
        },
    };
    let mi = match ledger.find_market(market_id) {
        Some(i) => i,
        None => {
            return Err(MarketError::UnknownMarket);
        },
    };
    let row = NewTrade {
        market_id,
        user_id: user_id.to_owned(),
        shares_amount: shares_amount.clone(),
        share_index,
        balance_change: change,
    };
    let ghost before = *ledger;
    let ghost shown = terms_of(row);
    credit_at(ledger, ui, &row.balance_change);
    let ghost paid = *ledger;
    insert_trade(row, id, mi, ledger);
    proof {
        let after = *ledger;
        assert(after.users@ == paid.users@);
        assert(before.market_index(market_id) == mi);
        assert forall|u: Seq<char>| #[trigger] after.balance_of(u) == paid.balance_of(u) by {}
        assert forall|u: Seq<char>| #[trigger] after.has_user(u) == paid.has_user(u) by {}
        assert(before.users[ui as int].id@ == shown.user);
        assert(credited(before, paid, shown.user, shown.change));
        assert(credited(before, after, shown.user, shown.change));
        assert(paid.trades == before.trades);
        assert(paid.markets == before.markets);
        assert(trade_executed(before, after, shown));
        if all_non_negative(before) {
            assert forall|u: Seq<char>| after.has_user(u) implies #[trigger] after.balance_of(u)
                >= 0real by {
                assert(before.has_user(u));
                assert(before.balance_of(u) >= 0real);
            }
        }
    }
    Ok(())
}

} // verus!
