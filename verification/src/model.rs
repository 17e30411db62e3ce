//! The ledger's entities and what it means for a ledger to be well formed.

use crate::amount::Amount;
use vstd::prelude::*;

verus! {

/// Number of outcomes of a market.
pub const OUTCOMES: usize = 2;

/// Seed balance credited to every new user.
pub const DEFAULT_BALANCE: i64 = 1000;

/// Why an operation on the ledger was refused.
#[derive(Clone, Copy, Debug, PartialEq, Eq, Structural)]
pub enum MarketError {
    /// A user with that id exists already.
    DuplicateIdentity,
    /// No user has that id.
    UnknownUser,
    /// No market has that id.
    UnknownMarket,
    /// The trade was rejected by validation.
    InvalidTrade,
    /// The store cannot take the new row.
    PersistenceError,
    /// The liquidity of a market to be priced is not positive.
    InvalidLiquidity,
    /// The market was resolved before.
    AlreadyResolved,
    /// The outcome index names no outcome of the market.
    InvalidOutcome,
}

/// A user: a unique handle and a balance, which may be of either sign.
pub struct User {
    pub id: String,
    pub balance: Amount,
}

/// A market on two outcomes. `liquidity` is the scale of its pricing rule
/// and the sum that its owner has put in escrow; `bought_shares` holds the
/// quantity bought of each outcome. A resolved market has `is_resolved`
/// set, and in `resolution` the outcome that won, or `None` where it was
/// cancelled.
pub struct Market {
    pub id: i32,
    pub title: String,
    pub description: String,
    pub owner_id: String,
    pub liquidity: Amount,
    pub bought_shares: Vec<Amount>,
    pub is_resolved: bool,
    pub resolution: Option<i32>,
}

/// An executed trade: `shares_amount` shares of outcome `share_index`,
/// bought where positive and sold where negative, and the change that it
/// made to the user's balance.
pub struct Trade {
    pub id: i32,
    pub market_id: i32,
    pub user_id: String,
    pub shares_amount: Amount,
    pub share_index: i32,
    pub balance_change: Amount,
}

/// A user row before the ledger has taken it.
pub struct NewUser {
    pub id: String,
    pub balance: Amount,
}

/// A market row before the ledger has given it an id.
pub struct NewMarket {
    pub title: String,
    pub description: String,
    pub owner_id: String,
    pub liquidity: Amount,
}

/// A trade row before the ledger has given it an id.
pub struct NewTrade {
    pub market_id: i32,
    pub user_id: String,
    pub shares_amount: Amount,
    pub share_index: i32,
    pub balance_change: Amount,
}

/// Users, markets and the append-only history of trades.
pub struct Ledger {
    pub users: Vec<User>,
    pub markets: Vec<Market>,
    pub trades: Vec<Trade>,
}

/// Whether `index` names one of the two outcomes.
pub open spec fn valid_outcome(index: i32) -> bool {
    0 <= index < OUTCOMES
}

impl Market {
    /// Two share counters; a winning outcome only on a resolved market, and
    /// only one that the market has.
    pub open spec fn wf(&self) -> bool {
        &&& self.bought_shares.len() == OUTCOMES
        &&& self.resolution.is_some() ==> self.is_resolved
        &&& self.resolution matches Some(k) ==> valid_outcome(k)
    }

    /// The quantities bought of each outcome.
    pub open spec fn shares(&self) -> Seq<real> {
        Seq::new(self.bought_shares.len() as nat, |i: int| self.bought_shares[i]@)
    }
}

/// Whether a row of `users` has the id `id`.
pub open spec fn user_known(users: Seq<User>, id: Seq<char>) -> bool {
    exists|i: int| 0 <= i < users.len() && (#[trigger] users[i]).id@ == id
}

/// A position in `users` of a row with the id `id`, where there is one.
pub open spec fn user_position(users: Seq<User>, id: Seq<char>) -> int {
    choose|i: int| 0 <= i < users.len() && (#[trigger] users[i]).id@ == id
}

/// Whether a row of `markets` has the id `id`.
pub open spec fn market_known(markets: Seq<Market>, id: i32) -> bool {
    exists|i: int| 0 <= i < markets.len() && (#[trigger] markets[i]).id == id
}

/// A position in `markets` of a row with the id `id`, where there is one.
pub open spec fn market_position(markets: Seq<Market>, id: i32) -> int {
    choose|i: int| 0 <= i < markets.len() && (#[trigger] markets[i]).id == id
}

impl Ledger {
    /// Whether there is a user `id`.
    pub open spec fn has_user(&self, id: Seq<char>) -> bool {
        user_known(self.users@, id)
    }

    /// The position of the user `id` in the users table, where there is
    /// one.
    pub open spec fn user_index(&self, id: Seq<char>) -> int {
        user_position(self.users@, id)
    }

    /// The balance of the user `id`, where there is one.
    pub open spec fn balance_of(&self, id: Seq<char>) -> real {
        self.users[self.user_index(id)].balance@
    }

    /// Whether there is a market `id`.
    pub open spec fn has_market(&self, id: i32) -> bool {
        market_known(self.markets@, id)
    }

    /// The position of the market `id` in the markets table, where there
    /// is one.
    pub open spec fn market_index(&self, id: i32) -> int {
        market_position(self.markets@, id)
    }

    /// The market `id`, where there is one.
    pub open spec fn market(&self, id: i32) -> Market {
        self.markets[self.market_index(id)]
    }

    /// No two users share an id; market and trade ids grow along their
    /// tables; every market has two share counters and an owner who is a
    /// user; every trade names an outcome and a user.
    pub open spec fn wf(&self) -> bool {
        &&& forall|i: int, j: int|
            0 <= i < j < self.users.len() ==> (#[trigger] self.users[i]).id@ != (
            #[trigger] self.users[j]).id@
        &&& forall|i: int, j: int|
            0 <= i < j < self.markets.len() ==> (#[trigger] self.markets[i]).id < (
            #[trigger] self.markets[j]).id
        &&& forall|i: int, j: int|
            0 <= i < j < self.trades.len() ==> (#[trigger] self.trades[i]).id < (
            #[trigger] self.trades[j]).id
        &&& forall|i: int|
            0 <= i < self.markets.len() ==> (#[trigger] self.markets[i]).wf() && self.has_user(
                self.markets[i].owner_id@,
            )
        &&& forall|i: int|
            0 <= i < self.trades.len() ==> valid_outcome((#[trigger] self.trades[i]).share_index)
                && self.has_user(self.trades[i].user_id@)
    }

    /// In a well-formed ledger the user at position `i` is the one that
    /// `balance_of` finds under that user's id.
    pub proof fn lemma_user_at(&self, i: int)
        requires
            self.wf(),
            0 <= i < self.users.len(),
        ensures
            self.has_user(self.users[i].id@),
            self.user_index(self.users[i].id@) == i,
            self.balance_of(self.users[i].id@) == self.users[i].balance@,
    {
        let id = self.users[i].id@;
        let j = self.user_index(id);
        assert(0 <= j < self.users.len() && self.users[j].id@ == id);
        if j < i {
            assert(self.users[j].id@ != self.users[i].id@);
        } else if i < j {
            assert(self.users[i].id@ != self.users[j].id@);
        }
    }

    /// In a well-formed ledger the market at position `i` is the one that
    /// `market` finds under that market's id.
    pub proof fn lemma_market_at(&self, i: int)
        requires
            self.wf(),
            0 <= i < self.markets.len(),
        ensures
            self.has_market(self.markets[i].id),
            self.market_index(self.markets[i].id) == i,
            self.market(self.markets[i].id) == self.markets[i],
    {
        let id = self.markets[i].id;
        let j = self.market_index(id);
        assert(0 <= j < self.markets.len() && self.markets[j].id == id);
        if j < i {
            assert(self.markets[j].id < self.markets[i].id);
        } else if i < j {
            assert(self.markets[i].id < self.markets[j].id);
        }
    }

    /// A ledger with no rows.
    pub fn new() -> (r: Ledger)
        ensures
            r.wf(),
            r.users@.len() == 0,
            r.markets@.len() == 0,
            r.trades@.len() == 0,
    {
        Ledger { users: Vec::new(), markets: Vec::new(), trades: Vec::new() }
    }

    /// Position of the user `id` in the users table.
    pub fn find_user(&self, id: &str) -> (r: Option<usize>)
        ensures
            r.is_some() <==> self.has_user(id@),
            r matches Some(i) ==> i < self.users.len() && self.users[i as int].id@ == id@ && (
            self.wf() ==> i == self.user_index(id@)),
    {
        let key = id.to_owned();
        let mut i: usize = 0;
        while i < self.users.len()
            invariant
                i <= self.users.len(),
                key@ == id@,
                forall|j: int| 0 <= j < i ==> (#[trigger] self.users[j]).id@ != id@,
            decreases self.users.len() - i,
        {
            if self.users[i].id == key {
                proof {
                    if self.wf() {
                        self.lemma_user_at(i as int);
                    }
                }
                return Some(i);
            }
            i += 1;
        }
        None
    }

    /// Position of the market `id` in the markets table.
    pub fn find_market(&self, id: i32) -> (r: Option<usize>)
        ensures
            r.is_some() <==> self.has_market(id),
            r matches Some(i) ==> i < self.markets.len() && self.markets[i as int].id == id && (
            self.wf() ==> i == self.market_index(id)),
    {
        let mut i: usize = 0;
        while i < self.markets.len()
            invariant
                i <= self.markets.len(),
                forall|j: int| 0 <= j < i ==> (#[trigger] self.markets[j]).id != id,
            decreases self.markets.len() - i,
        {
            if self.markets[i].id == id {
                proof {
                    if self.wf() {
                        self.lemma_market_at(i as int);
                    }
                }
                return Some(i);
            }
            i += 1;
        }
        None
    }
}

impl Ledger {
    fn users_distinct(&self) -> (r: bool)
        ensures
            r == (forall|i: int, j: int|
                0 <= i < j < self.users.len() ==> (#[trigger] self.users[i]).id@ != (
                #[trigger] self.users[j]).id@),
    {
        let mut j: usize = 0;
        while j < self.users.len()
            invariant
                j <= self.users.len(),
                forall|a: int, b: int|
                    0 <= a < b < j ==> (#[trigger] self.users[a]).id@ != (
                    #[trigger] self.users[b]).id@,
            decreases self.users.len() - j,
        {
            let mut i: usize = 0;
            while i < j
                invariant
                    i <= j,
                    j < self.users.len(),
                    forall|a: int| 0 <= a < i ==> (#[trigger] self.users[a]).id@ != self.users[j as int].id@,
                decreases j - i,
            {
                if self.users[i].id == self.users[j].id {
                    return false;
                }
                i += 1;
            }
            j += 1;
        }
        true
    }

    fn market_ids_grow(&self) -> (r: bool)
        ensures
            r == (forall|i: int, j: int|
                0 <= i < j < self.markets.len() ==> (#[trigger] self.markets[i]).id < (
                #[trigger] self.markets[j]).id),
    {
        let mut j: usize = 0;
        while j < self.markets.len()
            invariant
                j <= self.markets.len(),
                forall|a: int, b: int|
                    0 <= a < b < j ==> (#[trigger] self.markets[a]).id < (
                    #[trigger] self.markets[b]).id,
            decreases self.markets.len() - j,
        {
            if j > 0 && self.markets[j - 1].id >= self.markets[j].id {
                return false;
            }
            proof {
                assert forall|a: int, b: int| 0 <= a < b < j + 1 implies (
                #[trigger] self.markets[a]).id < (#[trigger] self.markets[b]).id by {
                    if b == j && a < j - 1 {
                        assert(self.markets[a].id < self.markets[j - 1].id);
                    }
                }
            }
            j += 1;
        }
        true
    }

    fn trade_ids_grow(&self) -> (r: bool)
        ensures
            r == (forall|i: int, j: int|
                0 <= i < j < self.trades.len() ==> (#[trigger] self.trades[i]).id < (
                #[trigger] self.trades[j]).id),
    {
        let mut j: usize = 0;
        while j < self.trades.len()
            invariant
                j <= self.trades.len(),
                forall|a: int, b: int|
                    0 <= a < b < j ==> (#[trigger] self.trades[a]).id < (
                    #[trigger] self.trades[b]).id,
            decreases self.trades.len() - j,
        {
            if j > 0 && self.trades[j - 1].id >= self.trades[j].id {
                return false;
            }
            proof {
                assert forall|a: int, b: int| 0 <= a < b < j + 1 implies (
                #[trigger] self.trades[a]).id < (#[trigger] self.trades[b]).id by {
                    if b == j && a < j - 1 {
                        assert(self.trades[a].id < self.trades[j - 1].id);
                    }
                }
            }
            j += 1;
        }
        true
    }

    fn markets_sound(&self) -> (r: bool)
        ensures
            r == (forall|i: int|
                0 <= i < self.markets.len() ==> (#[trigger] self.markets[i]).wf() && self.has_user(
                    self.markets[i].owner_id@,
                )),
    {
        let mut i: usize = 0;
        while i < self.markets.len()
            invariant
                i <= self.markets.len(),
                forall|a: int|
                    0 <= a < i ==> (#[trigger] self.markets[a]).wf() && self.has_user(
                        self.markets[a].owner_id@,
                    ),
            decreases self.markets.len() - i,
        {
            let m = &self.markets[i];
            let settled = match m.resolution {
                Some(k) => m.is_resolved && 0 <= k && k < 2,
                None => true,
            };
            if m.bought_shares.len() != 2 || !settled || self.find_user(
                m.owner_id.as_str(),
            ).is_none() {
                return false;
            }
            i += 1;
        }
        true
    }

    fn trades_sound(&self) -> (r: bool)
        ensures
            r == (forall|i: int|
                0 <= i < self.trades.len() ==> valid_outcome(
                    (#[trigger] self.trades[i]).share_index,
                ) && self.has_user(self.trades[i].user_id@)),
    {
        let mut i: usize = 0;
        while i < self.trades.len()
            invariant
                i <= self.trades.len(),
                forall|a: int|
                    0 <= a < i ==> valid_outcome((#[trigger] self.trades[a]).share_index)
                        && self.has_user(self.trades[a].user_id@),
            decreases self.trades.len() - i,
        {
            let t = &self.trades[i];
            if t.share_index < 0 || t.share_index >= 2 || self.find_user(
                t.user_id.as_str(),
            ).is_none() {
                return false;
            }
            i += 1;
        }
        true
    }

    /// The row of the user `id`.
    pub fn get_user(&self, id: &str) -> (r: Option<&User>)
        requires
            self.wf(),
        ensures
            r.is_some() <==> self.has_user(id@),
            r matches Some(u) ==> u.id@ == id@ && u.balance@ == self.balance_of(id@),
    {
        match self.find_user(id) {
            Some(i) => Some(&self.users[i]),
            None => None,
        }
    }

    /// The row of the market `id`.
    pub fn get_market(&self, id: i32) -> (r: Option<&Market>)
        requires
            self.wf(),
        ensures
            r.is_some() <==> self.has_market(id),
            r matches Some(m) ==> *m == self.market(id) && m.id == id && m.wf(),
    {
        match self.find_market(id) {
            Some(i) => Some(&self.markets[i]),
            None => None,
        }
    }

    /// Whether the ledger is well formed. The operations on a ledger ask
    /// for that; rows that were put together by hand are tested with this.
    pub fn is_well_formed(&self) -> (r: bool)
        ensures
            r == self.wf(),
    {
        self.users_distinct() && self.market_ids_grow() && self.trade_ids_grow()
            && self.markets_sound() && self.trades_sound()
    }
}

} // verus!
