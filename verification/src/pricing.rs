//! The exact side of pricing: what a trade does to the quantities bought,
//! and what a change of the market's cost does to the trader's balance.
//!
//! The cost of a market is worked out elsewhere, from the liquidity and the
//! quantities bought; here it comes in as an amount.

use crate::amount::Amount;
use crate::model::{valid_outcome, MarketError};
use vstd::prelude::*;

verus! {

/// The numbers that `amounts` stand for, in order.
pub open spec fn quantities(amounts: Seq<Amount>) -> Seq<real> {
    Seq::new(amounts.len(), |i: int| amounts[i]@)
}

/// Whether a market of this liquidity, with these quantities bought, can be
/// priced, and a trade in `share_index` with it.
pub open spec fn priceable(liquidity: real, shares: Seq<Amount>, share_index: i32) -> bool {
    liquidity > 0real && shares.len() == 2 && valid_outcome(share_index)
}

/// Tests the inputs of pricing. Fails with `InvalidLiquidity` where the
/// liquidity is not positive, else with `InvalidOutcome` where there are
/// not two quantities or `share_index` names neither.
pub fn check_pricing_inputs(liquidity: &Amount, shares: &Vec<Amount>, share_index: i32) -> (r:
    Result<(), MarketError>)
    ensures
        r.is_ok() <==> priceable(liquidity@, shares@, share_index),
        r matches Err(e) ==> e == (if liquidity@ > 0real {
            MarketError::InvalidOutcome
        } else {
            MarketError::InvalidLiquidity
        }),
{
    if !liquidity.is_positive() {
        Err(MarketError::InvalidLiquidity)
    } else if shares.len() != 2 || share_index < 0 || share_index >= 2 {
        Err(MarketError::InvalidOutcome)
    } else {
        Ok(())
    }
}

/// The quantities bought once `delta` shares of outcome `share_index` are
/// traded: that outcome's quantity grows by `delta`, the other stays.
pub fn shares_after(shares: &Vec<Amount>, share_index: i32, delta: &Amount) -> (r: Vec<Amount>)
    requires
        shares.len() == 2,
        valid_outcome(share_index),
    ensures
        quantities(r@) == quantities(shares@).update(
            share_index as int,
            shares[share_index as int]@ + delta@,
        ),
{
    let mut out: Vec<Amount> = Vec::new();
    if share_index == 0 {
        out.push(shares[0].plus(delta));
        out.push(shares[1].clone());
    } else {
        out.push(shares[0].clone());
        out.push(shares[1].plus(delta));
    }
    assert(quantities(out@) =~= quantities(shares@).update(
        share_index as int,
        shares[share_index as int]@ + delta@,
    ));
    out
}

/// The balance change of a trade that takes the market's cost from
/// `cost_before` to `cost_after`: the first less the second. A trade that
/// raises the cost is paid for, one that lowers it pays out.
pub fn balance_change(cost_before: &Amount, cost_after: &Amount) -> (r: Amount)
    ensures
        r@ == cost_before@ - cost_after@,
        cost_after@ > cost_before@ ==> r@ < 0real,
        cost_after@ < cost_before@ ==> r@ > 0real,
{
    cost_before.minus(cost_after)
}

/// Buying a quantity and selling it again at once brings the quantities
/// bought back to what they were, and the two balance changes cancel: no
/// fee is taken.
pub proof fn law_round_trip(
    shares: Seq<real>,
    index: int,
    delta: real,
    cost_before: real,
    cost_after: real,
)
    requires
        0 <= index < shares.len(),
    ensures
        shares.update(index, shares[index] + delta).update(
            index,
            shares.update(index, shares[index] + delta)[index] + (-delta),
        ) == shares,
        (cost_before - cost_after) + (cost_after - cost_before) == 0real,
{
    let bought = shares.update(index, shares[index] + delta);
    assert(bought.update(index, bought[index] + (-delta)) =~= shares);
}

} // verus!
