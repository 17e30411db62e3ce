//! Resolving a market: paying the winners, or undoing a cancelled market,
//! and handing the rest of the bankroll to the owner.

use crate::accounts::{credit_at, credited, same_users};
use crate::amount::Amount;
use crate::history::{
    changes, holding_of, holdings, lemma_sum_take, lemma_untraded, listed, net_change,
    on_market_by, position, stakes, sum, total_change, total_position, traded, Holding,
};
use crate::model::{valid_outcome, Ledger, Market, MarketError};
use vstd::prelude::*;

verus! {

/// What resolution credits to `user` as a trader: the quantity held of the
/// winning outcome, or, where the market is cancelled, the user's net
/// balance change on the market, reversed.
pub open spec fn trader_credit(
    ledger: Ledger,
    market_id: i32,
    resolution: Option<i32>,
    user: Seq<char>,
) -> real {
    match resolution {
        None => -net_change(ledger.trades@, market_id, user),
        Some(k) => position(ledger.trades@, market_id, user, k as int),
    }
}

/// What resolution credits to the market's owner: the liquidity, less, where
/// an outcome has won, the traders' net balance changes and the rewards.
pub open spec fn owner_credit(ledger: Ledger, market_id: i32, resolution: Option<i32>) -> real {
    let liquidity = ledger.market(market_id).liquidity@;
    match resolution {
        None => liquidity,
        Some(k) => liquidity - total_change(ledger.trades@, market_id) - total_position(
            ledger.trades@,
            market_id,
            k as int,
        ),
    }
}

/// What resolution adds to the balance of `user`.
pub open spec fn settlement(
    ledger: Ledger,
    market_id: i32,
    resolution: Option<i32>,
    user: Seq<char>,
) -> real {
    trader_credit(ledger, market_id, resolution, user) + (if user == ledger.market(
        market_id,
    ).owner_id@ {
        owner_credit(ledger, market_id, resolution)
    } else {
        0real
    })
}

/// `after` is `before`, resolved with `resolution`.
pub open spec fn resolved_as(before: Market, after: Market, resolution: Option<i32>) -> bool {
    &&& after.id == before.id
    &&& after.title == before.title
    &&& after.description == before.description
    &&& after.owner_id == before.owner_id
    &&& after.liquidity == before.liquidity
    &&& after.bought_shares == before.bought_shares
    &&& after.is_resolved
    &&& after.resolution == resolution
}

/// What resolution pays on the holding `h`.
pub open spec fn payout(h: Holding, resolution: Option<i32>) -> real {
    match resolution {
        None => -h.balance_change@,
        Some(k) => h.shares[k as int]@,
    }
}

/// The numbers that `amounts` stand for, in order.
pub open spec fn amount_values(amounts: Seq<Amount>) -> Seq<real> {
    Seq::new(amounts.len(), |i: int| amounts[i]@)
}

/// The error with which [`resolve_market`] refuses, where it does.
pub open spec fn resolution_refusal(
    ledger: Ledger,
    market_id: i32,
    resolution: Option<i32>,
) -> Option<MarketError> {
    if !ledger.has_market(market_id) {
        Some(MarketError::UnknownMarket)
    } else if ledger.market(market_id).is_resolved {
        Some(MarketError::AlreadyResolved)
    } else if resolution matches Some(k) && !valid_outcome(k) {
        Some(MarketError::InvalidOutcome)
    } else {
        None
    }
}

/// What resolution pays on each of `hs`, in order.
fn payouts(hs: &Vec<Holding>, resolution: Option<i32>) -> (r: Vec<Amount>)
    requires
        forall|j: int| 0 <= j < hs.len() ==> (#[trigger] hs[j]).shares.len() == 2,
        resolution matches Some(k) ==> valid_outcome(k),
    ensures
        r.len() == hs.len(),
        forall|j: int| 0 <= j < hs.len() ==> (#[trigger] r[j])@ == payout(hs[j], resolution),
{
    let mut out: Vec<Amount> = Vec::new();
    let mut j: usize = 0;
    while j < hs.len()
        invariant
            j <= hs.len(),
            out.len() == j,
            forall|i: int| 0 <= i < hs.len() ==> (#[trigger] hs[i]).shares.len() == 2,
            resolution matches Some(k) ==> valid_outcome(k),
            forall|i: int| 0 <= i < j ==> (#[trigger] out[i])@ == payout(hs[i], resolution),
        decreases hs.len() - j,
    {
        assert(hs[j as int].shares.len() == 2);
        let pay = match resolution {
            None => hs[j].balance_change.negated(),
            Some(k) => hs[j].shares[k as usize].clone(),
        };
        out.push(pay);
        j += 1;
    }
    out
}

/// The sum of `amounts`.
fn total(amounts: &Vec<Amount>) -> (r: Amount)
    ensures
        r@ == sum(amount_values(amounts@)),
{
    let mut acc = Amount::zero();
    let mut j: usize = 0;
    proof {
        assert(amount_values(amounts@).take(0) =~= Seq::<real>::empty());
    }
    while j < amounts.len()
        invariant
            j <= amounts.len(),
            acc@ == sum(amount_values(amounts@).take(j as int)),
        decreases amounts.len() - j,
    {
        proof {
            lemma_sum_take(amount_values(amounts@), j as int);
        }
        acc = acc.plus(&amounts[j]);
        j += 1;
    }
    proof {
        assert(amount_values(amounts@).take(j as int) =~= amount_values(amounts@));
    }
    acc
}

/// Credits the user of each of `hs` with the amount of `pays` at the same
/// position.
fn distribute(ledger: &mut Ledger, hs: &Vec<Holding>, pays: &Vec<Amount>)
    requires
        old(ledger).wf(),
        pays.len() == hs.len(),
        forall|i: int, j: int|
            0 <= i < j < hs.len() ==> (#[trigger] hs[i]).user_id@ != (#[trigger] hs[j]).user_id@,
        forall|j: int| 0 <= j < hs.len() ==> old(ledger).has_user((#[trigger] hs[j]).user_id@),
    ensures
        final(ledger).wf(),
        final(ledger).markets == old(ledger).markets,
        final(ledger).trades == old(ledger).trades,
        same_users(*old(ledger), *final(ledger)),
        forall|u: Seq<char>| #[trigger] final(ledger).has_user(u) == old(ledger).has_user(u),
        forall|j: int|
            0 <= j < hs.len() ==> final(ledger).balance_of((#[trigger] hs[j]).user_id@) == old(ledger).balance_of(hs[j].user_id@) + pays[j]@,
        forall|u: Seq<char>|
            old(ledger).has_user(u) && !listed(hs@, hs.len() as int, u) ==> #[trigger] final(ledger).balance_of(u) == old(ledger).balance_of(u),
{
    let ghost start = *ledger;
    let mut n: usize = 0;
    while n < hs.len()
        invariant
            n <= hs.len(),
            pays.len() == hs.len(),
            ledger.wf(),
            ledger.markets == start.markets,
            ledger.trades == start.trades,
            same_users(start, *ledger),
            forall|i: int, j: int|
                0 <= i < j < hs.len() ==> (#[trigger] hs[i]).user_id@ != (
                #[trigger] hs[j]).user_id@,
            forall|j: int| 0 <= j < hs.len() ==> start.has_user((#[trigger] hs[j]).user_id@),
            forall|u: Seq<char>| #[trigger] ledger.has_user(u) == start.has_user(u),
            forall|j: int|
                0 <= j < n ==> ledger.balance_of((#[trigger] hs[j]).user_id@) == start.balance_of(
                    hs[j].user_id@,
                ) + pays[j]@,
            forall|u: Seq<char>|
                start.has_user(u) && !listed(hs@, n as int, u) ==> #[trigger] ledger.balance_of(u)
                    == start.balance_of(u),
        decreases hs.len() - n,
    {
        let ghost before = *ledger;
        let ghost uid = hs[n as int].user_id@;
        assert(start.has_user(uid));
        assert(before.has_user(uid));
        match ledger.find_user(hs[n].user_id.as_str()) {
            Some(i) => {
                credit_at(ledger, i, &pays[n]);
            },
            None => {
                proof {
                    assert(false);
                }
            },
        }
        proof {
            let after = *ledger;
            assert(credited(before, after, uid, pays[n as int]@));
            assert(!listed(hs@, n as int, uid)) by {
                if listed(hs@, n as int, uid) {
                    let w = choose|w: int|
                        0 <= w < n && w < hs@.len() && (#[trigger] hs@[w]).user_id@ == uid;
                    assert(hs[w].user_id@ != hs[n as int].user_id@);
                }
            }
            assert(before.balance_of(uid) == start.balance_of(uid));
            assert forall|u: Seq<char>| #[trigger] after.has_user(u) == start.has_user(u) by {
                assert(before.has_user(u) == start.has_user(u));
            }
            assert forall|j: int| 0 <= j < n + 1 implies after.balance_of(
                (#[trigger] hs[j]).user_id@,
            ) == start.balance_of(hs[j].user_id@) + pays[j]@ by {
                let u = hs[j].user_id@;
                assert(start.has_user(u));
                assert(before.has_user(u));
                if j < n {
                    assert(hs[j].user_id@ != hs[n as int].user_id@);
                }
            }
            assert forall|u: Seq<char>|
                start.has_user(u) && !listed(hs@, n + 1, u) implies #[trigger] after.balance_of(u)
                == start.balance_of(u) by {
                assert(before.has_user(u));
                if u == uid {
                    assert(hs@[n as int].user_id@ == u);
                }
                if listed(hs@, n as int, u) {
                    let w = choose|w: int|
                        0 <= w < n && w < hs@.len() && (#[trigger] hs@[w]).user_id@ == u;
                    assert(hs@[w].user_id@ == u);
                }
                assert(before.balance_of(u) == start.balance_of(u));
            }
        }
        n += 1;
    }
}

/// The sum of the net balance changes of `hs`.
fn total_changes(hs: &Vec<Holding>) -> (r: Amount)
    ensures
        r@ == sum(changes(hs@)),
{
    let mut acc = Amount::zero();
    let mut j: usize = 0;
    proof {
        assert(changes(hs@).take(0) =~= Seq::<real>::empty());
    }
    while j < hs.len()
        invariant
            j <= hs.len(),
            acc@ == sum(changes(hs@).take(j as int)),
        decreases hs.len() - j,
    {
        proof {
            lemma_sum_take(changes(hs@), j as int);
        }
        acc = acc.plus(&hs[j].balance_change);
        j += 1;
    }
    proof {
        assert(changes(hs@).take(j as int) =~= changes(hs@));
    }
    acc
}

/// What a resolved market leaves behind: every balance raised by the
/// user's settlement, the market marked, and nothing else moved.
pub open spec fn resolved(
    before: Ledger,
    after: Ledger,
    market_id: i32,
    resolution: Option<i32>,
) -> bool {
    let mi = before.market_index(market_id);
    &&& same_users(before, after)
    &&& forall|u: Seq<char>| #[trigger] after.has_user(u) == before.has_user(u)
    &&& forall|u: Seq<char>|
        before.has_user(u) ==> #[trigger] after.balance_of(u) == before.balance_of(u) + settlement(
            before,
            market_id,
            resolution,
            u,
        )
    &&& after.markets@.len() == before.markets@.len()
    &&& forall|j: int|
        0 <= j < before.markets@.len() && j != mi ==> #[trigger] after.markets[j]
            == before.markets[j]
    &&& resolved_as(before.markets[mi], after.markets[mi], resolution)
}

/// Resolves an open market, with the outcome that has won or, with `None`,
/// as cancelled.
///
/// With an outcome, every user is credited the quantity held of it, and
/// the owner is credited what is left of the bankroll: the liquidity, less
/// the traders' net balance changes, less the rewards. Cancelled, every
/// user's net balance change on the market is reversed and the owner gets
/// the liquidity back. The market is then marked as resolved. All of this
/// happens or, where the call is refused, none of it: with `UnknownMarket`,
/// with `AlreadyResolved`, or with `InvalidOutcome`.
pub fn resolve_market(market_id: i32, resolution: Option<i32>, ledger: &mut Ledger) -> (r: Result<
    (),
    MarketError,
>)
    requires
        old(ledger).wf(),
    ensures
        final(ledger).wf(),
        final(ledger).trades == old(ledger).trades,
        r.is_ok() <==> resolution_refusal(*old(ledger), market_id, resolution).is_none(),
        r matches Err(e) ==> *final(ledger) == *old(ledger) && resolution_refusal(
            *old(ledger),
            market_id,
            resolution,
        ) == Some(e),
        r.is_ok() ==> resolved(*old(ledger), *final(ledger), market_id, resolution),
{
    let mi = match ledger.find_market(market_id) {
        Some(i) => i,
        None => {
            return Err(MarketError::UnknownMarket);
        },
    };
    if ledger.markets[mi].is_resolved {
        return Err(MarketError::AlreadyResolved);
    }
    match resolution {
        Some(k) => {
            if k < 0 || k >= 2 {
                return Err(MarketError::InvalidOutcome);
            }
        },
        None => {},
    }
    let ghost start = *ledger;
    let ghost trades = start.trades@;
    let hs = holdings(market_id, ledger);
    proof {
        assert forall|j: int| 0 <= j < hs.len() implies (#[trigger] hs[j]).shares.len() == 2
            && start.has_user(hs[j].user_id@) by {
            assert(holding_of(hs[j], trades, market_id));
            let u = hs[j].user_id@;
            let w = choose|w: int|
                0 <= w < trades.len() && on_market_by(#[trigger] trades[w], market_id, u);
            assert(start.has_user(start.trades[w].user_id@));
        }
    }
    let pays = payouts(&hs, resolution);
    let liquidity = ledger.markets[mi].liquidity.clone();
    let rest = match resolution {
        None => liquidity,
        Some(k) => {
            let taken = total_changes(&hs);
            let rewards = total(&pays);
            proof {
                assert(amount_values(pays@) =~= stakes(hs@, k as int));
            }
            liquidity.minus(&taken).minus(&rewards)
        },
    };
    assert(rest@ == owner_credit(start, market_id, resolution));
    distribute(ledger, &hs, &pays);
    let ghost paid = *ledger;
    proof {
        assert forall|u: Seq<char>| start.has_user(u) implies #[trigger] paid.balance_of(u)
            == start.balance_of(u) + trader_credit(start, market_id, resolution, u) by {
            if traded(trades, market_id, u) {
                assert(listed(hs@, hs@.len() as int, u));
                let w = choose|w: int| 0 <= w < hs@.len() && (#[trigger] hs@[w]).user_id@ == u;
                assert(holding_of(hs@[w], trades, market_id));
                assert(paid.balance_of(hs[w].user_id@) == start.balance_of(hs[w].user_id@)
                    + pays[w]@);
            } else {
                if listed(hs@, hs@.len() as int, u) {
                    let w = choose|w: int|
                        0 <= w < hs@.len() && w < hs@.len() && (#[trigger] hs@[w]).user_id@ == u;
                    assert(holding_of(hs@[w], trades, market_id));
                }
                lemma_untraded(trades, market_id, u);
            }
        }
    }
    let ghost owner = start.markets[mi as int].owner_id@;
    assert(start.has_user(owner));
    match ledger.find_user(ledger.markets[mi].owner_id.as_str()) {
        Some(oi) => {
            credit_at(ledger, oi, &rest);
        },
        None => {
            proof {
                assert(false);
            }
        },
    }
    let ghost credited_owner = *ledger;
    ledger.markets[mi].is_resolved = true;
    ledger.markets[mi].resolution = resolution;
    proof {
        let after = *ledger;
        assert(credited(paid, credited_owner, owner, rest@));
        assert(after.users@ == credited_owner.users@);
        assert forall|u: Seq<char>| #[trigger] after.balance_of(u) == credited_owner.balance_of(
            u,
        ) by {}
        assert forall|u: Seq<char>| #[trigger] after.has_user(u) == start.has_user(u) by {
            assert(credited_owner.has_user(u) == paid.has_user(u));
            assert(paid.has_user(u) == start.has_user(u));
        }
        assert forall|u: Seq<char>| start.has_user(u) implies #[trigger] after.balance_of(u)
            == start.balance_of(u) + settlement(start, market_id, resolution, u) by {
            assert(paid.has_user(u));
            assert(credited_owner.balance_of(u) == paid.balance_of(u) + (if u == owner {
                rest@
            } else {
                0real
            }));
        }
        assert forall|i: int, j: int| 0 <= i < j < after.markets.len() implies (
        #[trigger] after.markets[i]).id < (#[trigger] after.markets[j]).id by {
            assert(start.markets[i].id < start.markets[j].id);
        }
        assert forall|i: int| 0 <= i < after.markets.len() implies (#[trigger] after.markets[i]).wf()
            && after.has_user(after.markets[i].owner_id@) by {
            assert(start.markets[i].wf());
            assert(start.has_user(start.markets[i].owner_id@));
            assert(after.markets[i].owner_id == start.markets[i].owner_id);
        }
        assert forall|i: int| 0 <= i < after.trades.len() implies valid_outcome(
            (#[trigger] after.trades[i]).share_index,
        ) && after.has_user(after.trades[i].user_id@) by {
            assert(start.has_user(start.trades[i].user_id@));
        }
        assert(after.wf());
        assert(resolved(start, after, market_id, resolution));
    }
    Ok(())
}

} // verus!
