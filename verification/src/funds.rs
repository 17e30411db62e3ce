//! Where the money is: the total of the balances, the bankroll that each
//! market holds in escrow, and how the operations move money between them.

use crate::accounts::{credited, user_added};
use crate::history::{
    lemma_sum_push, lemma_sum_update, net_change, position, sum, total_change, total_position,
    trade_change, trade_shares,
};
use crate::model::{user_known, user_position, valid_outcome, Ledger, Trade, User};
use crate::settlement::{owner_credit, resolved, settlement, trader_credit};
use crate::trading::{next_trade_id, recorded, trade_executed, TradeTerms};
use vstd::prelude::*;

verus! {

/// The balances, in the order of the users table.
pub open spec fn balances(ledger: Ledger) -> Seq<real> {
    Seq::new(ledger.users@.len(), |i: int| ledger.users[i].balance@)
}

/// The total of all balances.
pub open spec fn funds(ledger: Ledger) -> real {
    sum(balances(ledger))
}

/// What a market holds in escrow: its liquidity, and what its traders have
/// paid on balance.
pub open spec fn bankroll(ledger: Ledger, market_id: i32) -> real {
    ledger.market(market_id).liquidity@ - total_change(ledger.trades@, market_id)
}

/// The net balance change on the market of each of `users`, in order.
pub open spec fn user_changes(users: Seq<User>, trades: Seq<Trade>, market_id: i32) -> Seq<real> {
    Seq::new(users.len(), |i: int| net_change(trades, market_id, users[i].id@))
}

/// The position in `outcome` on the market of each of `users`, in order.
pub open spec fn user_positions(
    users: Seq<User>,
    trades: Seq<Trade>,
    market_id: i32,
    outcome: int,
) -> Seq<real> {
    Seq::new(users.len(), |i: int| position(trades, market_id, users[i].id@, outcome))
}

/// Whether no two of `users` share an id and each of `trades` is a trade of
/// one of them.
pub open spec fn traders_known(users: Seq<User>, trades: Seq<Trade>) -> bool {
    &&& forall|i: int, j: int|
        0 <= i < j < users.len() ==> (#[trigger] users[i]).id@ != (#[trigger] users[j]).id@
    &&& forall|i: int| 0 <= i < trades.len() ==> user_known(users, (#[trigger] trades[i]).user_id@)
}

/// Zeros add up to zero.
pub proof fn lemma_sum_zero(s: Seq<real>)
    requires
        forall|i: int| 0 <= i < s.len() ==> s[i] == 0real,
    ensures
        sum(s) == 0real,
    decreases s.len(),
{
    if s.len() > 0 {
        lemma_sum_zero(s.drop_last());
    }
}

/// The sum of a sequence of sums is the sum of the sums of its parts.
pub proof fn lemma_sum_add(a: Seq<real>, b: Seq<real>, c: Seq<real>)
    requires
        a.len() == b.len(),
        a.len() == c.len(),
        forall|i: int| 0 <= i < c.len() ==> c[i] == a[i] + b[i],
    ensures
        sum(c) == sum(a) + sum(b),
    decreases a.len(),
{
    if a.len() > 0 {
        lemma_sum_add(a.drop_last(), b.drop_last(), c.drop_last());
    }
}

/// A sequence that is zero but at `j` adds up to what it holds at `j`.
pub proof fn lemma_sum_single(s: Seq<real>, j: int)
    requires
        0 <= j < s.len(),
        forall|i: int| 0 <= i < s.len() && i != j ==> s[i] == 0real,
    ensures
        sum(s) == s[j],
{
    let zeros = Seq::new(s.len(), |i: int| 0real);
    lemma_sum_zero(zeros);
    lemma_sum_update(zeros, j, s[j]);
    assert(s =~= zeros.update(j, s[j]));
}

/// What one trade adds to the per-user sums: its own share, at its user.
proof fn lemma_one_trader(users: Seq<User>, t: Trade, step: Seq<real>, share: real)
    requires
        forall|i: int, j: int|
            0 <= i < j < users.len() ==> (#[trigger] users[i]).id@ != (#[trigger] users[j]).id@,
        user_known(users, t.user_id@),
        step.len() == users.len(),
        forall|i: int|
            0 <= i < users.len() ==> #[trigger] step[i] == (if users[i].id@ == t.user_id@ {
                share
            } else {
                0real
            }),
    ensures
        sum(step) == share,
{
    let j = user_position(users, t.user_id@);
    assert(0 <= j < users.len() && users[j].id@ == t.user_id@);
    assert forall|i: int| 0 <= i < step.len() && i != j implies step[i] == 0real by {
        if i < j {
            assert(users[i].id@ != users[j].id@);
        } else {
            assert(users[j].id@ != users[i].id@);
        }
    }
    lemma_sum_single(step, j);
}

/// The users' net balance changes on a market add up to the balance
/// changes of all its trades.
pub proof fn lemma_changes_add_up(users: Seq<User>, trades: Seq<Trade>, market_id: i32)
    requires
        traders_known(users, trades),
    ensures
        sum(user_changes(users, trades, market_id)) == total_change(trades, market_id),
    decreases trades.len(),
{
    if trades.len() == 0 {
        lemma_sum_zero(user_changes(users, trades, market_id));
    } else {
        let front = trades.drop_last();
        let t = trades.last();
        assert forall|i: int| 0 <= i < front.len() implies user_known(
            users,
            (#[trigger] front[i]).user_id@,
        ) by {
            assert(front[i] == trades[i]);
        }
        lemma_changes_add_up(users, front, market_id);
        let step = Seq::new(users.len(), |i: int| trade_change(t, market_id, users[i].id@));
        lemma_sum_add(
            user_changes(users, front, market_id),
            step,
            user_changes(users, trades, market_id),
        );
        assert(user_known(users, trades[trades.len() - 1].user_id@));
        lemma_one_trader(users, t, step, trade_change(t, market_id, t.user_id@));
    }
}

/// The users' positions in an outcome of a market add up to the share
/// quantities of all its trades in that outcome.
pub proof fn lemma_positions_add_up(
    users: Seq<User>,
    trades: Seq<Trade>,
    market_id: i32,
    outcome: int,
)
    requires
        traders_known(users, trades),
    ensures
        sum(user_positions(users, trades, market_id, outcome)) == total_position(
            trades,
            market_id,
            outcome,
        ),
    decreases trades.len(),
{
    if trades.len() == 0 {
        lemma_sum_zero(user_positions(users, trades, market_id, outcome));
    } else {
        let front = trades.drop_last();
        let t = trades.last();
        assert forall|i: int| 0 <= i < front.len() implies user_known(
            users,
            (#[trigger] front[i]).user_id@,
        ) by {
            assert(front[i] == trades[i]);
        }
        lemma_positions_add_up(users, front, market_id, outcome);
        let step = Seq::new(
            users.len(),
            |i: int| trade_shares(t, market_id, users[i].id@, outcome),
        );
        lemma_sum_add(
            user_positions(users, front, market_id, outcome),
            step,
            user_positions(users, trades, market_id, outcome),
        );
        assert(user_known(users, trades[trades.len() - 1].user_id@));
        lemma_one_trader(users, t, step, trade_shares(t, market_id, t.user_id@, outcome));
    }
}

/// A credit moves the total of the balances by its amount.
pub proof fn law_credit_moves_funds(before: Ledger, after: Ledger, id: Seq<char>, amount: real)
    requires
        before.wf(),
        after.wf(),
        before.has_user(id),
        credited(before, after, id, amount),
    ensures
        funds(after) == funds(before) + amount,
{
    let j = before.user_index(id);
    assert(0 <= j < before.users.len() && before.users[j].id@ == id);
    let raised = balances(before).update(j, balances(before)[j] + amount);
    assert forall|i: int| 0 <= i < before.users.len() implies balances(after)[i] == raised[i] by {
        before.lemma_user_at(i);
        after.lemma_user_at(i);
        before.lemma_user_at(j);
        assert(after.users[i].id@ == before.users[i].id@);
        assert(after.balance_of(before.users[i].id@) == before.balance_of(before.users[i].id@) + (
        if before.users[i].id@ == id {
            amount
        } else {
            0real
        }));
    }
    assert(balances(after) =~= raised);
    lemma_sum_update(balances(before), j, balances(before)[j] + amount);
}

/// A new user adds the user's balance to the total of the balances.
pub proof fn law_new_user_adds_funds(before: Ledger, after: Ledger, id: Seq<char>, balance: real)
    requires
        before.wf(),
        after.wf(),
        !before.has_user(id),
        user_added(before, after, id, balance),
    ensures
        funds(after) == funds(before) + balance,
{
    let n = before.users.len() as int;
    after.lemma_user_at(n);
    assert(after.has_user(after.users[n].id@));
    assert(after.users[n].id@ == id) by {
        if after.users[n].id@ != id {
            let u = after.users[n].id@;
            assert(before.has_user(u));
            let w = before.user_index(u);
            assert(before.users[w].id@ == u);
            assert(after.users[w].id@ == u);
            assert(after.users[w].id@ != after.users[n].id@);
        }
    }
    assert forall|i: int| 0 <= i < n implies balances(after)[i] == balances(before)[i] by {
        before.lemma_user_at(i);
        after.lemma_user_at(i);
        assert(after.users[i].id@ == before.users[i].id@);
        assert(after.balance_of(before.users[i].id@) == before.balance_of(before.users[i].id@));
    }
    assert(balances(after) =~= balances(before).push(balance));
    lemma_sum_push(balances(before), balance);
}

/// A trade moves its balance change from the market's bankroll to the
/// balances, or the other way: what the one loses the other gains.
pub proof fn law_trade_moves_funds(before: Ledger, after: Ledger, terms: TradeTerms)
    requires
        before.wf(),
        after.wf(),
        before.has_user(terms.user),
        before.has_market(terms.market_id),
        trade_executed(before, after, terms),
    ensures
        funds(after) == funds(before) + terms.change,
        bankroll(after, terms.market_id) == bankroll(before, terms.market_id) - terms.change,
{
    law_credit_moves_funds(before, after, terms.user, terms.change);
    let mi = before.market_index(terms.market_id);
    assert(0 <= mi < before.markets.len() && before.markets[mi].id == terms.market_id);
    after.lemma_market_at(mi);
    let t = after.trades@.last();
    assert(after.trades@.drop_last() == before.trades@);
    assert(recorded(t, next_trade_id(before) as i32, terms));
}

/// Resolving a market, with an outcome or as cancelled, hands its whole
/// bankroll out to the balances: nothing is made and nothing is lost.
pub proof fn law_resolution_releases_bankroll(
    before: Ledger,
    after: Ledger,
    market_id: i32,
    resolution: Option<i32>,
)
    requires
        before.wf(),
        after.wf(),
        before.has_market(market_id),
        resolution matches Some(k) ==> valid_outcome(k),
        resolved(before, after, market_id, resolution),
    ensures
        funds(after) == funds(before) + bankroll(before, market_id),
{
    let users = before.users@;
    let trades = before.trades@;
    let n = users.len();
    let mi = before.market_index(market_id);
    assert(0 <= mi < before.markets.len() && before.markets[mi].id == market_id);
    let owner = before.market(market_id).owner_id@;
    assert(before.has_user(before.markets[mi].owner_id@));
    let credits = Seq::new(n, |i: int| trader_credit(before, market_id, resolution, users[i].id@));
    let owner_part = Seq::new(
        n,
        |i: int|
            if users[i].id@ == owner {
                owner_credit(before, market_id, resolution)
            } else {
                0real
            },
    );
    let settlements = Seq::new(
        n,
        |i: int| settlement(before, market_id, resolution, users[i].id@),
    );
    lemma_sum_add(credits, owner_part, settlements);
    let oj = before.user_index(owner);
    assert(0 <= oj < n && users[oj].id@ == owner);
    assert forall|i: int| 0 <= i < n && i != oj implies owner_part[i] == 0real by {
        if i < oj {
            assert(before.users[i].id@ != before.users[oj].id@);
        } else {
            assert(before.users[oj].id@ != before.users[i].id@);
        }
    }
    lemma_sum_single(owner_part, oj);
    assert forall|i: int| 0 <= i < n implies balances(after)[i] == balances(before)[i]
        + settlements[i] by {
        before.lemma_user_at(i);
        after.lemma_user_at(i);
        assert(after.users[i].id@ == before.users[i].id@);
        assert(after.balance_of(before.users[i].id@) == before.balance_of(before.users[i].id@)
            + settlement(before, market_id, resolution, before.users[i].id@));
    }
    lemma_sum_add(balances(before), settlements, balances(after));
    assert(traders_known(users, trades)) by {
        assert forall|i: int| 0 <= i < trades.len() implies user_known(
            users,
            (#[trigger] trades[i]).user_id@,
        ) by {
            assert(before.has_user(before.trades[i].user_id@));
        }
    }
    match resolution {
        Some(k) => {
            lemma_positions_add_up(users, trades, market_id, k as int);
            assert(credits =~= user_positions(users, trades, market_id, k as int));
        },
        None => {
            lemma_changes_add_up(users, trades, market_id);
            let zeros = Seq::new(n, |i: int| 0real);
            lemma_sum_zero(zeros);
            lemma_sum_add(credits, user_changes(users, trades, market_id), zeros);
        },
    }
}

} // verus!
