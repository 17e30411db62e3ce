//! What holds of the ledger across its operations.

use crate::history::{
    changes, holding_of, holdings_of, net_change, on_market_by, stakes, sum, trade_change, Holding,
};
use crate::model::{valid_outcome, Ledger};
use crate::settlement::{owner_credit, resolved, trader_credit};
use crate::trading::{
    all_non_negative, next_trade_id, recorded, trade_accepted, trade_executed, TradeTerms,
};
use vstd::prelude::*;

verus! {

/// What the balance of `user` would be had none of the market's trades
/// occurred: the balance, less the user's net balance change on the market.
pub open spec fn balance_without(ledger: Ledger, market_id: i32, user: Seq<char>) -> real {
    ledger.balance_of(user) - net_change(ledger.trades@, market_id, user)
}

/// An accepted trade, once executed, leaves no balance below zero where
/// none was before.
pub proof fn law_trade_keeps_floor(before: Ledger, after: Ledger, terms: TradeTerms)
    requires
        all_non_negative(before),
        trade_accepted(
            before,
            terms.market_id,
            terms.user,
            terms.share_index,
            terms.change,
        ),
        trade_executed(before, after, terms),
    ensures
        all_non_negative(after),
{
    assert forall|u: Seq<char>| after.has_user(u) implies #[trigger] after.balance_of(u)
        >= 0real by {
        assert(before.has_user(u));
        assert(before.balance_of(u) >= 0real);
    }
}

/// A trade on a market moves each user's balance and each user's net
/// balance change on that market by the same amount: what the balance
/// would be without the market's trades stays as it was.
pub proof fn law_trade_is_accounted(before: Ledger, after: Ledger, terms: TradeTerms, user: Seq<char>)
    requires
        before.has_user(user),
        trade_executed(before, after, terms),
    ensures
        balance_without(after, terms.market_id, user) == balance_without(
            before,
            terms.market_id,
            user,
        ),
{
    let t = after.trades@.last();
    assert(after.trades@.drop_last() == before.trades@);
    assert(recorded(t, next_trade_id(before) as i32, terms));
    assert(on_market_by(t, terms.market_id, user) <==> terms.user == user);
    assert(net_change(after.trades@, terms.market_id, user) == net_change(
        before.trades@,
        terms.market_id,
        user,
    ) + trade_change(t, terms.market_id, user));
    assert(after.balance_of(user) == before.balance_of(user) + (if user == terms.user {
        terms.change
    } else {
        0real
    }));
}

/// Cancelling a market gives every user the balance that the user would
/// have had without the market's trades, and gives the owner the liquidity
/// on top.
pub proof fn law_cancellation_restores(
    before: Ledger,
    after: Ledger,
    market_id: i32,
    user: Seq<char>,
)
    requires
        before.has_user(user),
        resolved(before, after, market_id, None),
    ensures
        after.balance_of(user) == balance_without(before, market_id, user) + (if user
            == before.market(market_id).owner_id@ {
            before.market(market_id).liquidity@
        } else {
            0real
        }),
{
}

/// On resolution with an outcome, the rewards of the traders and the
/// owner's credit add up to the liquidity less the sum of the traders' net
/// balance changes: the bankroll goes out whole, and nothing more.
pub proof fn law_bankroll_conserved(ledger: Ledger, market_id: i32, outcome: i32, hs: Seq<Holding>)
    requires
        valid_outcome(outcome),
        holdings_of(hs, ledger.trades@, market_id),
    ensures
        forall|i: int|
            0 <= i < hs.len() ==> #[trigger] stakes(hs, outcome as int)[i] == trader_credit(
                ledger,
                market_id,
                Some(outcome),
                hs[i].user_id@,
            ),
        forall|i: int|
            0 <= i < hs.len() ==> #[trigger] changes(hs)[i] == net_change(
                ledger.trades@,
                market_id,
                hs[i].user_id@,
            ),
        sum(stakes(hs, outcome as int)) + owner_credit(ledger, market_id, Some(outcome))
            == ledger.market(market_id).liquidity@ - sum(changes(hs)),
{
    assert forall|i: int| 0 <= i < hs.len() implies #[trigger] stakes(hs, outcome as int)[i]
        == trader_credit(ledger, market_id, Some(outcome), hs[i].user_id@) && #[trigger] changes(
        hs,
    )[i] == net_change(ledger.trades@, market_id, hs[i].user_id@) by {
        assert(holding_of(hs[i], ledger.trades@, market_id));
    }
}

/// Where the traders' net balance changes on a market cancel out, the
/// rewards and the owner's credit add up to the liquidity plus their sum,
/// which is the liquidity.
pub proof fn law_bankroll_of_even_book(
    ledger: Ledger,
    market_id: i32,
    outcome: i32,
    hs: Seq<Holding>,
)
    requires
        valid_outcome(outcome),
        holdings_of(hs, ledger.trades@, market_id),
        sum(changes(hs)) == 0real,
    ensures
        sum(stakes(hs, outcome as int)) + owner_credit(ledger, market_id, Some(outcome))
            == ledger.market(market_id).liquidity@ + sum(changes(hs)),
{
    law_bankroll_conserved(ledger, market_id, outcome, hs);
}

} // verus!
