//! What the trade history of a market adds up to, user by user.

use crate::amount::Amount;
use crate::model::{valid_outcome, Ledger, MarketError, Trade};
use vstd::prelude::*;

verus! {

/// Whether `t` is a trade of `user` on the market `market_id`.
pub open spec fn on_market_by(t: Trade, market_id: i32, user: Seq<char>) -> bool {
    t.market_id == market_id && t.user_id@ == user
}

/// Whether `user` has traded on the market.
pub open spec fn traded(trades: Seq<Trade>, market_id: i32, user: Seq<char>) -> bool {
    exists|i: int| 0 <= i < trades.len() && on_market_by(#[trigger] trades[i], market_id, user)
}

/// What `t` adds to the net balance change of `user` on the market.
pub open spec fn trade_change(t: Trade, market_id: i32, user: Seq<char>) -> real {
    if on_market_by(t, market_id, user) {
        t.balance_change@
    } else {
        0real
    }
}

/// What `t` adds to the position of `user` in `outcome` on the market.
pub open spec fn trade_shares(t: Trade, market_id: i32, user: Seq<char>, outcome: int) -> real {
    if on_market_by(t, market_id, user) && t.share_index == outcome {
        t.shares_amount@
    } else {
        0real
    }
}

/// Sum of the balance changes of the trades of `user` on the market.
pub open spec fn net_change(trades: Seq<Trade>, market_id: i32, user: Seq<char>) -> real
    decreases trades.len(),
{
    if trades.len() == 0 {
        0real
    } else {
        net_change(trades.drop_last(), market_id, user) + trade_change(
            trades.last(),
            market_id,
            user,
        )
    }
}

/// Sum of the signed share quantities of the trades of `user` in `outcome`
/// on the market.
pub open spec fn position(trades: Seq<Trade>, market_id: i32, user: Seq<char>, outcome: int) -> real
    decreases trades.len(),
{
    if trades.len() == 0 {
        0real
    } else {
        position(trades.drop_last(), market_id, user, outcome) + trade_shares(
            trades.last(),
            market_id,
            user,
            outcome,
        )
    }
}

/// Sum of the balance changes of all trades on the market.
pub open spec fn total_change(trades: Seq<Trade>, market_id: i32) -> real
    decreases trades.len(),
{
    if trades.len() == 0 {
        0real
    } else {
        total_change(trades.drop_last(), market_id) + trade_change(
            trades.last(),
            market_id,
            trades.last().user_id@,
        )
    }
}

/// Sum of the signed share quantities of all trades in `outcome` on the
/// market.
pub open spec fn total_position(trades: Seq<Trade>, market_id: i32, outcome: int) -> real
    decreases trades.len(),
{
    if trades.len() == 0 {
        0real
    } else {
        total_position(trades.drop_last(), market_id, outcome) + trade_shares(
            trades.last(),
            market_id,
            trades.last().user_id@,
            outcome,
        )
    }
}

/// Sum of a sequence of numbers.
pub open spec fn sum(s: Seq<real>) -> real
    decreases s.len(),
{
    if s.len() == 0 {
        0real
    } else {
        sum(s.drop_last()) + s.last()
    }
}

/// What one user has made of a market: the net balance change of the
/// user's trades, and the quantity held of each outcome.
pub struct Holding {
    pub user_id: String,
    pub balance_change: Amount,
    pub shares: Vec<Amount>,
}

/// The net balance changes of `hs`, in order.
pub open spec fn changes(hs: Seq<Holding>) -> Seq<real> {
    Seq::new(hs.len(), |i: int| hs[i].balance_change@)
}

/// The quantities that `hs` hold of `outcome`, in order.
pub open spec fn stakes(hs: Seq<Holding>, outcome: int) -> Seq<real> {
    Seq::new(hs.len(), |i: int| hs[i].shares[outcome]@)
}

/// Whether one of the first `n` of `hs` belongs to `user`.
pub open spec fn listed(hs: Seq<Holding>, n: int, user: Seq<char>) -> bool {
    exists|i: int| 0 <= i < n && i < hs.len() && (#[trigger] hs[i]).user_id@ == user
}

/// Whether `h` sums up the trades of its user on the market.
pub open spec fn holding_of(h: Holding, trades: Seq<Trade>, market_id: i32) -> bool {
    &&& traded(trades, market_id, h.user_id@)
    &&& h.shares.len() == 2
    &&& h.balance_change@ == net_change(trades, market_id, h.user_id@)
    &&& h.shares[0]@ == position(trades, market_id, h.user_id@, 0)
    &&& h.shares[1]@ == position(trades, market_id, h.user_id@, 1)
}

/// Whether `hs` are the holdings on the market: one for each user who has
/// traded on it, none twice, each the sum of that user's trades.
pub open spec fn holdings_of(hs: Seq<Holding>, trades: Seq<Trade>, market_id: i32) -> bool {
    &&& forall|i: int, j: int|
        0 <= i < j < hs.len() ==> (#[trigger] hs[i]).user_id@ != (#[trigger] hs[j]).user_id@
    &&& forall|i: int| 0 <= i < hs.len() ==> holding_of(#[trigger] hs[i], trades, market_id)
    &&& forall|u: Seq<char>| #[trigger]
        traded(trades, market_id, u) ==> listed(hs, hs.len() as int, u)
    &&& sum(changes(hs)) == total_change(trades, market_id)
    &&& sum(stakes(hs, 0)) == total_position(trades, market_id, 0)
    &&& sum(stakes(hs, 1)) == total_position(trades, market_id, 1)
}

/// Appending a number adds it to the sum.
pub proof fn lemma_sum_push(s: Seq<real>, v: real)
    ensures
        sum(s.push(v)) == sum(s) + v,
{
    assert(s.push(v).drop_last() =~= s);
}

/// Replacing a number changes the sum by the difference.
pub proof fn lemma_sum_update(s: Seq<real>, j: int, v: real)
    requires
        0 <= j < s.len(),
    ensures
        sum(s.update(j, v)) == sum(s) - s[j] + v,
    decreases s.len(),
{
    if j == s.len() - 1 {
        assert(s.update(j, v).drop_last() =~= s.drop_last());
    } else {
        lemma_sum_update(s.drop_last(), j, v);
        assert(s.update(j, v).drop_last() =~= s.drop_last().update(j, v));
    }
}

/// The sum of the first `n + 1` numbers is that of the first `n` and the
/// next one.
pub proof fn lemma_sum_take(s: Seq<real>, n: int)
    requires
        0 <= n < s.len(),
    ensures
        sum(s.take(n + 1)) == sum(s.take(n)) + s[n],
{
    assert(s.take(n + 1).drop_last() =~= s.take(n));
}

/// A user who has not traded on a market has no net balance change and no
/// position there.
pub proof fn lemma_untraded(trades: Seq<Trade>, market_id: i32, user: Seq<char>)
    requires
        !traded(trades, market_id, user),
    ensures
        net_change(trades, market_id, user) == 0real,
        forall|k: int| #[trigger] position(trades, market_id, user, k) == 0real,
    decreases trades.len(),
{
    if trades.len() > 0 {
        let front = trades.drop_last();
        if traded(front, market_id, user) {
            let i = choose|i: int|
                0 <= i < front.len() && on_market_by(#[trigger] front[i], market_id, user);
            assert(on_market_by(trades[i], market_id, user));
        }
        assert(!on_market_by(trades[trades.len() - 1], market_id, user));
        lemma_untraded(front, market_id, user);
        assert forall|k: int| #[trigger] position(trades, market_id, user, k) == 0real by {
            assert(position(front, market_id, user, k) == 0real);
        }
    } else {
        assert forall|k: int| #[trigger] position(trades, market_id, user, k) == 0real by {}
    }
}

/// What the trade at position `i` adds to the sums over the trades before
/// it.
pub proof fn lemma_next_trade(trades: Seq<Trade>, i: int, market_id: i32)
    requires
        0 <= i < trades.len(),
    ensures
        forall|u: Seq<char>| #[trigger]
            net_change(trades.take(i + 1), market_id, u) == net_change(
                trades.take(i),
                market_id,
                u,
            ) + trade_change(trades[i], market_id, u),
        forall|u: Seq<char>, k: int| #[trigger]
            position(trades.take(i + 1), market_id, u, k) == position(
                trades.take(i),
                market_id,
                u,
                k,
            ) + trade_shares(trades[i], market_id, u, k),
        total_change(trades.take(i + 1), market_id) == total_change(trades.take(i), market_id)
            + trade_change(trades[i], market_id, trades[i].user_id@),
        forall|k: int| #[trigger]
            total_position(trades.take(i + 1), market_id, k) == total_position(
                trades.take(i),
                market_id,
                k,
            ) + trade_shares(trades[i], market_id, trades[i].user_id@, k),
        forall|u: Seq<char>| #[trigger]
            traded(trades.take(i + 1), market_id, u) == (traded(trades.take(i), market_id, u)
                || on_market_by(trades[i], market_id, u)),
{
    let a = trades.take(i);
    let b = trades.take(i + 1);
    assert(b.drop_last() =~= a);
    assert(b.last() == trades[i]);
    assert forall|u: Seq<char>| #[trigger]
        traded(b, market_id, u) == (traded(a, market_id, u) || on_market_by(
            trades[i],
            market_id,
            u,
        )) by {
        if traded(a, market_id, u) {
            let j = choose|j: int| 0 <= j < a.len() && on_market_by(#[trigger] a[j], market_id, u);
            assert(on_market_by(b[j], market_id, u));
        }
        if on_market_by(trades[i], market_id, u) {
            assert(on_market_by(b[i], market_id, u));
        }
        if traded(b, market_id, u) {
            let j = choose|j: int| 0 <= j < b.len() && on_market_by(#[trigger] b[j], market_id, u);
            if j < i {
                assert(on_market_by(a[j], market_id, u));
            }
        }
    }
}

/// Position in `hs` of the holding of the user `id`.
fn find_holding(hs: &Vec<Holding>, id: &String) -> (r: Option<usize>)
    ensures
        r.is_some() <==> listed(hs@, hs.len() as int, id@),
        r matches Some(j) ==> j < hs.len() && hs[j as int].user_id@ == id@,
{
    let mut j: usize = 0;
    while j < hs.len()
        invariant
            j <= hs.len(),
            forall|k: int| 0 <= k < j ==> (#[trigger] hs[k]).user_id@ != id@,
        decreases hs.len() - j,
    {
        if hs[j].user_id == *id {
            return Some(j);
        }
        j += 1;
    }
    None
}

/// The holdings on the market `market_id`: one for each user who has
/// traded on it.
pub fn holdings(market_id: i32, ledger: &Ledger) -> (r: Vec<Holding>)
    requires
        ledger.wf(),
    ensures
        holdings_of(r@, ledger.trades@, market_id),
{
    let mut acc: Vec<Holding> = Vec::new();
    let mut i: usize = 0;
    proof {
        assert(ledger.trades@.take(0) =~= Seq::<Trade>::empty());
        assert(changes(acc@) =~= Seq::<real>::empty());
        assert(stakes(acc@, 0) =~= Seq::<real>::empty());
        assert(stakes(acc@, 1) =~= Seq::<real>::empty());
    }
    while i < ledger.trades.len()
        invariant
            i <= ledger.trades.len(),
            ledger.wf(),
            holdings_of(acc@, ledger.trades@.take(i as int), market_id),
        decreases ledger.trades.len() - i,
    {
        let ghost before = acc@;
        let ghost seen = ledger.trades@.take(i as int);
        let ghost next = ledger.trades@.take(i + 1);
        proof {
            lemma_next_trade(ledger.trades@, i as int, market_id);
        }
        let t = &ledger.trades[i];
        assert(valid_outcome(t.share_index));
        let index = t.share_index as usize;
        if t.market_id == market_id {
            match find_holding(&acc, &t.user_id) {
                Some(j) => {
                    assert(holding_of(before[j as int], seen, market_id));
                    let raised = acc[j].balance_change.plus(&t.balance_change);
                    let held = acc[j].shares[index].plus(&t.shares_amount);
                    acc[j].balance_change = raised;
                    acc[j].shares[index] = held;
                    proof {
                        let now = acc@;
                        assert(now.len() == before.len());
                        assert(now[j as int].user_id == before[j as int].user_id);
                        assert forall|k: int| 0 <= k < now.len() && k != j implies #[trigger] now[k]
                            == before[k] by {}
                        assert forall|a: int, b: int| 0 <= a < b < now.len() implies (
                        #[trigger] now[a]).user_id@ != (#[trigger] now[b]).user_id@ by {
                            assert(before[a].user_id@ != before[b].user_id@);
                        }
                        assert forall|k: int| 0 <= k < now.len() implies holding_of(
                            #[trigger] now[k],
                            next,
                            market_id,
                        ) by {
                            assert(holding_of(before[k], seen, market_id));
                            if k < j {
                                assert(before[k].user_id@ != before[j as int].user_id@);
                            } else if k > j {
                                assert(before[j as int].user_id@ != before[k].user_id@);
                            }
                        }
                        assert forall|u: Seq<char>| #[trigger]
                            traded(next, market_id, u) implies listed(now, now.len() as int, u) by {
                            if traded(seen, market_id, u) {
                                assert(listed(before, before.len() as int, u));
                                let w = choose|w: int|
                                    0 <= w < before.len() && (#[trigger] before[w]).user_id@ == u;
                                assert(now[w].user_id@ == u);
                            } else {
                                assert(now[j as int].user_id@ == u);
                            }
                        }
                        lemma_sum_update(changes(before), j as int, raised@);
                        assert(changes(now) =~= changes(before).update(j as int, raised@));
                        lemma_sum_update(stakes(before, 0), j as int, now[j as int].shares[0]@);
                        assert(stakes(now, 0) =~= stakes(before, 0).update(
                            j as int,
                            now[j as int].shares[0]@,
                        ));
                        lemma_sum_update(stakes(before, 1), j as int, now[j as int].shares[1]@);
                        assert(stakes(now, 1) =~= stakes(before, 1).update(
                            j as int,
                            now[j as int].shares[1]@,
                        ));
                    }
                },
                None => {
                    let mut shares: Vec<Amount> = Vec::new();
                    shares.push(Amount::zero());
                    shares.push(Amount::zero());
                    shares[index] = t.shares_amount.clone();
                    let fresh = Holding {
                        user_id: t.user_id.clone(),
                        balance_change: t.balance_change.clone(),
                        shares,
                    };
                    acc.push(fresh);
                    proof {
                        let now = acc@;
                        let n = before.len() as int;
                        let u0 = t.user_id@;
                        assert(now[n].user_id@ == u0);
                        assert(!traded(seen, market_id, u0));
                        lemma_untraded(seen, market_id, u0);
                        assert(position(seen, market_id, u0, 0) == 0real);
                        assert(position(seen, market_id, u0, 1) == 0real);
                        assert forall|k: int| 0 <= k < n implies #[trigger] now[k] == before[k] by {}
                        assert forall|a: int, b: int| 0 <= a < b < now.len() implies (
                        #[trigger] now[a]).user_id@ != (#[trigger] now[b]).user_id@ by {
                            if b < n {
                                assert(before[a].user_id@ != before[b].user_id@);
                            } else {
                                assert(before[a].user_id@ != u0);
                            }
                        }
                        assert forall|k: int| 0 <= k < now.len() implies holding_of(
                            #[trigger] now[k],
                            next,
                            market_id,
                        ) by {
                            if k < n {
                                assert(holding_of(before[k], seen, market_id));
                                assert(before[k].user_id@ != u0);
                            }
                        }
                        assert forall|u: Seq<char>| #[trigger]
                            traded(next, market_id, u) implies listed(now, now.len() as int, u) by {
                            if traded(seen, market_id, u) {
                                assert(listed(before, before.len() as int, u));
                                let w = choose|w: int|
                                    0 <= w < before.len() && (#[trigger] before[w]).user_id@ == u;
                                assert(now[w].user_id@ == u);
                            } else {
                                assert(now[n].user_id@ == u);
                            }
                        }
                        lemma_sum_push(changes(before), now[n].balance_change@);
                        assert(changes(now) =~= changes(before).push(now[n].balance_change@));
                        lemma_sum_push(stakes(before, 0), now[n].shares[0]@);
                        assert(stakes(now, 0) =~= stakes(before, 0).push(now[n].shares[0]@));
                        lemma_sum_push(stakes(before, 1), now[n].shares[1]@);
                        assert(stakes(now, 1) =~= stakes(before, 1).push(now[n].shares[1]@));
                    }
                },
            }
        } else {
            proof {
                assert forall|k: int| 0 <= k < before.len() implies holding_of(
                    #[trigger] before[k],
                    next,
                    market_id,
                ) by {
                    assert(holding_of(before[k], seen, market_id));
                }
            }
        }
        i += 1;
    }
    proof {
        assert(ledger.trades@.take(i as int) =~= ledger.trades@);
    }
    acc
}

/// Whether one of `entries` is keyed by `user`.
pub open spec fn has_entry<V>(entries: Seq<(String, V)>, user: Seq<char>) -> bool {
    exists|i: int| 0 <= i < entries.len() && (#[trigger] entries[i]).0@ == user
}

/// Whether no two of `entries` have the same key.
pub open spec fn distinct_keys<V>(entries: Seq<(String, V)>) -> bool {
    forall|i: int, j: int|
        0 <= i < j < entries.len() ==> (#[trigger] entries[i]).0@ != (#[trigger] entries[j]).0@
}

/// The values of `entries`, in order.
pub open spec fn entry_values(entries: Seq<(String, Amount)>) -> Seq<real> {
    Seq::new(entries.len(), |i: int| entries[i].1@)
}

/// The quantities of `outcome` in `entries`, in order.
pub open spec fn entry_stakes(entries: Seq<(String, Vec<Amount>)>, outcome: int) -> Seq<real> {
    Seq::new(entries.len(), |i: int| entries[i].1[outcome]@)
}

/// Whether `entries` map each user who has traded on the market, and no
/// other, to the sum of the balance changes of that user's trades there.
pub open spec fn balance_changes_of(
    entries: Seq<(String, Amount)>,
    trades: Seq<Trade>,
    market_id: i32,
) -> bool {
    &&& distinct_keys(entries)
    &&& forall|i: int|
        0 <= i < entries.len() ==> traded(trades, market_id, (#[trigger] entries[i]).0@)
            && entries[i].1@ == net_change(trades, market_id, entries[i].0@)
    &&& forall|u: Seq<char>| #[trigger] traded(trades, market_id, u) ==> has_entry(entries, u)
    &&& sum(entry_values(entries)) == total_change(trades, market_id)
}

/// Whether `entries` map each user who has traded on the market, and no
/// other, to the two quantities that the user holds: for each outcome the
/// sum of the signed share quantities of that user's trades in it.
pub open spec fn positions_of(
    entries: Seq<(String, Vec<Amount>)>,
    trades: Seq<Trade>,
    market_id: i32,
) -> bool {
    &&& distinct_keys(entries)
    &&& forall|i: int|
        0 <= i < entries.len() ==> {
            &&& traded(trades, market_id, (#[trigger] entries[i]).0@)
            &&& entries[i].1.len() == 2
            &&& entries[i].1[0]@ == position(trades, market_id, entries[i].0@, 0)
            &&& entries[i].1[1]@ == position(trades, market_id, entries[i].0@, 1)
        }
    &&& forall|u: Seq<char>| #[trigger] traded(trades, market_id, u) ==> has_entry(entries, u)
    &&& sum(entry_stakes(entries, 0)) == total_position(trades, market_id, 0)
    &&& sum(entry_stakes(entries, 1)) == total_position(trades, market_id, 1)
}

/// The positions on a market: for each user who has traded on it, the
/// quantity held of each outcome. A market without trades, or an id that
/// no market has, gives no entries. Never fails.
pub fn get_positions(market_id: i32, ledger: &Ledger) -> (r: Result<
    Vec<(String, Vec<Amount>)>,
    MarketError,
>)
    requires
        ledger.wf(),
    ensures
        r matches Ok(v) && positions_of(v@, ledger.trades@, market_id),
{
    let hs = holdings(market_id, ledger);
    let mut out: Vec<(String, Vec<Amount>)> = Vec::new();
    let mut i: usize = 0;
    while i < hs.len()
        invariant
            i <= hs.len(),
            out.len() == i,
            holdings_of(hs@, ledger.trades@, market_id),
            forall|k: int|
                0 <= k < i ==> {
                    &&& (#[trigger] out[k]).0@ == hs[k].user_id@
                    &&& out[k].1.len() == 2
                    &&& out[k].1[0]@ == hs[k].shares[0]@
                    &&& out[k].1[1]@ == hs[k].shares[1]@
                },
        decreases hs.len() - i,
    {
        assert(holding_of(hs@[i as int], ledger.trades@, market_id));
        let mut shares: Vec<Amount> = Vec::new();
        shares.push(hs[i].shares[0].clone());
        shares.push(hs[i].shares[1].clone());
        out.push((hs[i].user_id.clone(), shares));
        i += 1;
    }
    proof {
        let v = out@;
        assert(entry_stakes(v, 0) =~= stakes(hs@, 0));
        assert(entry_stakes(v, 1) =~= stakes(hs@, 1));
        assert forall|k: int| 0 <= k < v.len() implies {
            &&& traded(ledger.trades@, market_id, (#[trigger] v[k]).0@)
            &&& v[k].1.len() == 2
            &&& v[k].1[0]@ == position(ledger.trades@, market_id, v[k].0@, 0)
            &&& v[k].1[1]@ == position(ledger.trades@, market_id, v[k].0@, 1)
        } by {
            assert(holding_of(hs@[k], ledger.trades@, market_id));
        }
        assert forall|a: int, b: int| 0 <= a < b < v.len() implies (#[trigger] v[a]).0@ != (
        #[trigger] v[b]).0@ by {
            assert(hs@[a].user_id@ != hs@[b].user_id@);
        }
        assert forall|u: Seq<char>| #[trigger]
            traded(ledger.trades@, market_id, u) implies has_entry(v, u) by {
            assert(listed(hs@, hs@.len() as int, u));
            let w = choose|w: int| 0 <= w < hs@.len() && (#[trigger] hs@[w]).user_id@ == u;
            assert(v[w].0@ == u);
        }
    }
    Ok(out)
}

/// The net balance changes on a market: for each user who has traded on
/// it, the sum of the balance changes of that user's trades. A market
/// without trades, or an id that no market has, gives no entries. Never
/// fails.
pub fn get_balance_changes_on_market(market_id: i32, ledger: &Ledger) -> (r: Result<
    Vec<(String, Amount)>,
    MarketError,
>)
    requires
        ledger.wf(),
    ensures
        r matches Ok(v) && balance_changes_of(v@, ledger.trades@, market_id),
{
    let hs = holdings(market_id, ledger);
    let mut out: Vec<(String, Amount)> = Vec::new();
    let mut i: usize = 0;
    while i < hs.len()
        invariant
            i <= hs.len(),
            out.len() == i,
            forall|k: int|
                0 <= k < i ==> (#[trigger] out[k]).0@ == hs[k].user_id@ && out[k].1@
                    == hs[k].balance_change@,
        decreases hs.len() - i,
    {
        out.push((hs[i].user_id.clone(), hs[i].balance_change.clone()));
        i += 1;
    }
    proof {
        let v = out@;
        assert(entry_values(v) =~= changes(hs@));
        assert forall|k: int| 0 <= k < v.len() implies traded(
            ledger.trades@,
            market_id,
            (#[trigger] v[k]).0@,
        ) && v[k].1@ == net_change(ledger.trades@, market_id, v[k].0@) by {
            assert(holding_of(hs@[k], ledger.trades@, market_id));
        }
        assert forall|a: int, b: int| 0 <= a < b < v.len() implies (#[trigger] v[a]).0@ != (
        #[trigger] v[b]).0@ by {
            assert(hs@[a].user_id@ != hs@[b].user_id@);
        }
        assert forall|u: Seq<char>| #[trigger]
            traded(ledger.trades@, market_id, u) implies has_entry(v, u) by {
            assert(listed(hs@, hs@.len() as int, u));
            let w = choose|w: int| 0 <= w < hs@.len() && (#[trigger] hs@[w]).user_id@ == u;
            assert(v[w].0@ == u);
        }
    }
    Ok(out)
}

} // verus!
