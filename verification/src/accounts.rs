//! Users and their balances.

use crate::amount::Amount;
use crate::model::{Ledger, MarketError, NewUser, User, DEFAULT_BALANCE};
use vstd::prelude::*;

verus! {

/// Whether the users table of `after` holds the ids of `before`, each at
/// its position: no row was added, removed or moved.
pub open spec fn same_users(before: Ledger, after: Ledger) -> bool {
    &&& after.users@.len() == before.users@.len()
    &&& forall|i: int|
        0 <= i < before.users@.len() ==> (#[trigger] after.users[i]).id@ == before.users[i].id@
}

/// The users of `after` are those of `before`, and each balance has grown
/// by `amount` for the user `id` and by nothing for the others.
pub open spec fn credited(before: Ledger, after: Ledger, id: Seq<char>, amount: real) -> bool {
    &&& same_users(before, after)
    &&& forall|u: Seq<char>| #[trigger] after.has_user(u) == before.has_user(u)
    &&& forall|u: Seq<char>|
        before.has_user(u) ==> #[trigger] after.balance_of(u) == before.balance_of(u) + (if u
            == id {
            amount
        } else {
            0real
        })
}

/// Two ledgers whose user tables hold the same ids at the same positions
/// find each user at the same position.
pub proof fn lemma_same_ids(a: Ledger, b: Ledger)
    requires
        a.wf(),
        a.users.len() == b.users.len(),
        forall|j: int| 0 <= j < a.users.len() ==> (#[trigger] a.users[j]).id@ == b.users[j].id@,
    ensures
        forall|u: Seq<char>| #[trigger] b.has_user(u) == a.has_user(u),
        forall|u: Seq<char>| a.has_user(u) ==> #[trigger] b.user_index(u) == a.user_index(u),
        forall|i: int, j: int|
            0 <= i < j < b.users.len() ==> (#[trigger] b.users[i]).id@ != (#[trigger] b.users[j]).id@,
{
    assert forall|i: int, j: int| 0 <= i < j < b.users.len() implies (#[trigger] b.users[i]).id@
        != (#[trigger] b.users[j]).id@ by {
        assert(a.users[i].id@ != a.users[j].id@);
    }
    assert forall|u: Seq<char>| #[trigger] b.has_user(u) == a.has_user(u) by {
        if a.has_user(u) {
            let j = a.user_index(u);
            assert(a.users[j].id@ == u);
            assert(b.users[j].id@ == u);
        }
        if b.has_user(u) {
            let j = b.user_index(u);
            assert(b.users[j].id@ == u);
            assert(a.users[j].id@ == u);
        }
    }
    assert forall|u: Seq<char>| a.has_user(u) implies #[trigger] b.user_index(u) == a.user_index(
        u,
    ) by {
        let j = a.user_index(u);
        let k = b.user_index(u);
        assert(a.users[j].id@ == u);
        assert(b.users[j].id@ == u);
        assert(b.users[k].id@ == u);
        if j < k {
            assert(b.users[j].id@ != b.users[k].id@);
        } else if k < j {
            assert(b.users[k].id@ != b.users[j].id@);
        }
    }
}

/// Adds `amount` to the balance of the user at position `i`.
pub(crate) fn credit_at(ledger: &mut Ledger, i: usize, amount: &Amount)
    requires
        old(ledger).wf(),
        i < old(ledger).users.len(),
    ensures
        final(ledger).wf(),
        final(ledger).markets == old(ledger).markets,
        final(ledger).trades == old(ledger).trades,
        credited(*old(ledger), *final(ledger), old(ledger).users[i as int].id@, amount@),
{
    let ghost before = *ledger;
    let raised = ledger.users[i].balance.plus(amount);
    ledger.users[i].balance = raised;
    proof {
        let after = *ledger;
        assert(after.users.len() == before.users.len());
        assert forall|j: int| 0 <= j < before.users.len() implies (#[trigger] before.users[j]).id@
            == after.users[j].id@ by {}
        lemma_same_ids(before, after);
        before.lemma_user_at(i as int);
        assert forall|u: Seq<char>| before.has_user(u) implies #[trigger] after.balance_of(u)
            == before.balance_of(u) + (if u == before.users[i as int].id@ {
            amount@
        } else {
            0real
        }) by {
            let j = before.user_index(u);
            assert(after.user_index(u) == j);
            assert(before.users[j].id@ == u);
            if j != i {
                assert(after.users[j] == before.users[j]);
            }
        }
        assert(after.wf());
    }
}

/// Adds `amount`, of either sign, to the balance of the user `user_id`.
///
/// Fails with `UnknownUser`, and changes nothing, where there is no such
/// user. No floor is held: the balance may go below zero.
pub fn change_balance(user_id: &str, amount: &Amount, ledger: &mut Ledger) -> (r: Result<
    (),
    MarketError,
>)
    requires
        old(ledger).wf(),
    ensures
        final(ledger).wf(),
        final(ledger).markets == old(ledger).markets,
        final(ledger).trades == old(ledger).trades,
        r.is_ok() <==> old(ledger).has_user(user_id@),
        r.is_ok() ==> credited(*old(ledger), *final(ledger), user_id@, amount@),
        r matches Err(e) ==> e == MarketError::UnknownUser && *final(ledger) == *old(ledger),
{
    match ledger.find_user(user_id) {
        Some(i) => {
            credit_at(ledger, i, amount);
            Ok(())
        },
        None => Err(MarketError::UnknownUser),
    }
}

/// Appends a user row, unless a user has that id already.
pub fn insert_user(row: NewUser, ledger: &mut Ledger) -> (r: Result<(), MarketError>)
    requires
        old(ledger).wf(),
    ensures
        final(ledger).wf(),
        final(ledger).markets == old(ledger).markets,
        final(ledger).trades == old(ledger).trades,
        r.is_ok() <==> !old(ledger).has_user(row.id@),
        r.is_ok() ==> user_added(*old(ledger), *final(ledger), row.id@, row.balance@),
        r matches Err(e) ==> e == MarketError::DuplicateIdentity && *final(ledger) == *old(ledger),
{
    if ledger.find_user(row.id.as_str()).is_some() {
        return Err(MarketError::DuplicateIdentity);
    }
    let ghost before = *ledger;
    ledger.users.push(User { id: row.id, balance: row.balance });
    proof {
        let after = *ledger;
        let n = before.users.len() as int;
        assert(after.users[n].id@ == row.id@);
        assert forall|j: int| 0 <= j < n implies (#[trigger] after.users[j]) == before.users[j] by {}
        assert forall|u: Seq<char>| #[trigger]
            after.has_user(u) == (before.has_user(u) || u == row.id@) by {
            if before.has_user(u) {
                let j = before.user_index(u);
                assert(after.users[j].id@ == u);
            }
            if after.has_user(u) {
                let j = after.user_index(u);
                if j < n {
                    assert(before.users[j].id@ == u);
                }
            }
        }
        assert(after.wf());
        after.lemma_user_at(n);
        assert forall|u: Seq<char>| before.has_user(u) implies #[trigger] after.balance_of(u)
            == before.balance_of(u) by {
            let j = before.user_index(u);
            assert(before.users[j].id@ == u);
            after.lemma_user_at(j);
        }
    }
    Ok(())
}

/// The user `id` is new in `after`, with `balance`; the users of `before`
/// are all there, with the balances they had.
pub open spec fn user_added(before: Ledger, after: Ledger, id: Seq<char>, balance: real) -> bool {
    &&& after.users@.len() == before.users@.len() + 1
    &&& forall|i: int|
        0 <= i < before.users@.len() ==> (#[trigger] after.users[i]).id@ == before.users[i].id@
    &&& forall|u: Seq<char>| #[trigger] after.has_user(u) == (before.has_user(u) || u == id)
    &&& forall|u: Seq<char>| before.has_user(u) ==> #[trigger] after.balance_of(u) == before.balance_of(u)
    &&& after.balance_of(id) == balance
}

/// Creates the user `id` with the seed balance.
///
/// The row is inserted with balance zero and then credited with
/// [`DEFAULT_BALANCE`]. Fails with `DuplicateIdentity`, and changes
/// nothing, where the id is taken.
pub fn create_user(id: &str, ledger: &mut Ledger) -> (r: Result<(), MarketError>)
    requires
        old(ledger).wf(),
    ensures
        final(ledger).wf(),
        final(ledger).markets == old(ledger).markets,
        final(ledger).trades == old(ledger).trades,
        r.is_ok() <==> !old(ledger).has_user(id@),
        r.is_ok() ==> user_added(*old(ledger), *final(ledger), id@, DEFAULT_BALANCE as real),
        r matches Err(e) ==> e == MarketError::DuplicateIdentity && *final(ledger) == *old(ledger),
{
    let row = NewUser { id: id.to_owned(), balance: Amount::zero() };
    match insert_user(row, ledger) {
        Ok(()) => {},
        Err(e) => {
            return Err(e);
        },
    }
    let seed = Amount::from_units(DEFAULT_BALANCE);
    change_balance(id, &seed, ledger)
}

/// Creates the user `id` as [`create_user`] does, and leaves the ledger as
/// it is where the user exists already. Never fails.
pub fn try_create_user(id: &str, ledger: &mut Ledger) -> (r: Result<(), MarketError>)
    requires
        old(ledger).wf(),
    ensures
        final(ledger).wf(),
        final(ledger).markets == old(ledger).markets,
        final(ledger).trades == old(ledger).trades,
        r.is_ok(),
        old(ledger).has_user(id@) ==> *final(ledger) == *old(ledger),
        !old(ledger).has_user(id@) ==> user_added(
            *old(ledger),
            *final(ledger),
            id@,
            DEFAULT_BALANCE as real,
        ),
{
    match create_user(id, ledger) {
        Ok(()) => Ok(()),
        Err(e) => match e {
            MarketError::DuplicateIdentity => Ok(()),
            _ => Err(e),
        },
    }
}

} // verus!
