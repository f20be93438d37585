use vstd::prelude::*;

use crate::error::LedgerError;
use crate::model::{points_at, LedgerView};
use crate::user::{Relation, UserRow};

verus! {

/// A user created with a nonempty, unused id is read back with that id and
/// that balance.
pub proof fn lemma_create_then_get(s: LedgerView, id: Seq<char>, balance: i64)
    requires
        id.len() > 0,
        !s.users.contains_key(id),
    ensures
        s.create_outcome(id, balance) == Ok::<UserRow, LedgerError>(
            UserRow { id, balance_millionths: balance },
        ),
        s.after_create(id, balance).get_outcome(id) == Ok::<UserRow, LedgerError>(
            UserRow { id, balance_millionths: balance },
        ),
{
}

/// For an id that was never created, reading it and overwriting its balance
/// (plainly or conditionally) fail with `NotFound` and change nothing.
pub proof fn lemma_absent_not_found(s: LedgerView, id: Seq<char>, expected: i64, balance: i64)
    requires
        !s.users.contains_key(id),
    ensures
        s.get_outcome(id) == Err::<UserRow, LedgerError>(LedgerError::NotFound),
        s.update_outcome(id) == Err::<(), LedgerError>(LedgerError::NotFound),
        s.after_update(id, balance) == s,
        s.swap_outcome(id, expected) == Err::<(), LedgerError>(LedgerError::NotFound),
        s.after_swap(id, expected, balance) == s,
{
}

/// Creating the same id a second time fails with `DuplicateKey` and leaves
/// the first record as it was.
pub proof fn lemma_create_twice(s: LedgerView, id: Seq<char>, first: i64, second: i64)
    requires
        s.create_outcome(id, first) is Ok,
    ensures
        s.after_create(id, first).create_outcome(id, second) == Err::<UserRow, LedgerError>(
            LedgerError::DuplicateKey,
        ),
        s.after_create(id, first).after_create(id, second) == s.after_create(id, first),
{
}

/// Writing the same balance twice leaves the ledger as writing it once.
pub proof fn lemma_update_idempotent(s: LedgerView, id: Seq<char>, balance: i64)
    ensures
        s.after_update(id, balance).after_update(id, balance) == s.after_update(id, balance),
        s.after_update(id, balance).update_outcome(id) == s.update_outcome(id),
{
    if s.users.contains_key(id) {
        let once = s.after_update(id, balance);
        assert(once.users.insert(id, balance) =~= once.users);
    }
}

/// Two writers that both read the balance `seen` and then each make a
/// conditional write lose no update: the first write succeeds, the second
/// either succeeds (when the first left `seen` in place) or is refused with
/// `ConcurrentModification`, and the balance left is the value of the write
/// that went through last.
pub proof fn lemma_racing_updates(s: LedgerView, id: Seq<char>, first: i64, second: i64)
    requires
        s.users.contains_key(id),
    ensures
        ({
            let seen = s.users[id];
            let mid = s.after_swap(id, seen, first);
            let end = mid.after_swap(id, seen, second);
            &&& s.swap_outcome(id, seen) == Ok::<(), LedgerError>(())
            &&& mid.users[id] == first
            &&& end.users.contains_key(id)
            &&& end.users[id] == first || end.users[id] == second
            &&& mid.swap_outcome(id, seen) is Ok ==> end.users[id] == second
            &&& mid.swap_outcome(id, seen) is Err ==> {
                &&& mid.swap_outcome(id, seen) == Err::<(), LedgerError>(
                    LedgerError::ConcurrentModification,
                )
                &&& end == mid
            }
            &&& first != seen ==> mid.swap_outcome(id, seen) == Err::<(), LedgerError>(
                LedgerError::ConcurrentModification,
            )
        }),
{
}

/// A stored user is deleted exactly when no market or order row points at
/// it; otherwise the deletion fails with `ReferentialIntegrityViolation` and
/// changes nothing.
pub proof fn lemma_delete_restricted(s: LedgerView, id: Seq<char>)
    requires
        s.users.contains_key(id),
    ensures
        s.referenced(id) ==> s.delete_outcome(id) == Err::<(), LedgerError>(
            LedgerError::ReferentialIntegrityViolation,
        ) && s.after_delete(id) == s,
        !s.referenced(id) ==> s.delete_outcome(id) == Ok::<(), LedgerError>(()) && !s.after_delete(
            id,
        ).users.contains_key(id),
{
}

/// The ledger after removing the market rows with these keys, in order.
pub open spec fn after_remove_markets(s: LedgerView, keys: Seq<u64>) -> LedgerView
    decreases keys.len(),
{
    if keys.len() == 0 {
        s
    } else {
        after_remove_markets(s, keys.drop_last()).after_remove_market(keys.last())
    }
}

/// The ledger after removing the order rows with these keys, in order.
pub open spec fn after_remove_orders(s: LedgerView, keys: Seq<u64>) -> LedgerView
    decreases keys.len(),
{
    if keys.len() == 0 {
        s
    } else {
        after_remove_orders(s, keys.drop_last()).after_remove_order(keys.last())
    }
}

/// Removing market rows takes exactly those keys out of the market table.
proof fn lemma_remove_markets(s: LedgerView, keys: Seq<u64>)
    ensures
        after_remove_markets(s, keys).users == s.users,
        after_remove_markets(s, keys).orders == s.orders,
        after_remove_markets(s, keys).markets == s.markets.remove_keys(keys.to_set()),
    decreases keys.len(),
{
    if keys.len() > 0 {
        lemma_remove_markets(s, keys.drop_last());
        assert(keys.drop_last().to_set().insert(keys.last()) =~= keys.to_set()) by {
            assert forall|k: u64| keys.to_set().contains(k) implies keys.drop_last().to_set().insert(
                keys.last(),
            ).contains(k) by {
                let i = choose|i: int| 0 <= i < keys.len() && keys[i] == k;
                if i < keys.len() - 1 {
                    assert(keys.drop_last()[i] == k);
                }
            }
            assert forall|k: u64| keys.drop_last().to_set().contains(k) implies keys.to_set().contains(
                k,
            ) by {
                let i = choose|i: int| 0 <= i < keys.drop_last().len() && keys.drop_last()[i] == k;
                assert(keys[i] == k);
            }
        }
        assert(s.markets.remove_keys(keys.drop_last().to_set()).remove(keys.last())
            =~= s.markets.remove_keys(keys.to_set()));
    } else {
        assert(s.markets.remove_keys(keys.to_set()) =~= s.markets);
    }
}

/// Removing order rows takes exactly those keys out of the order table.
proof fn lemma_remove_orders(s: LedgerView, keys: Seq<u64>)
    ensures
        after_remove_orders(s, keys).users == s.users,
        after_remove_orders(s, keys).markets == s.markets,
        after_remove_orders(s, keys).orders == s.orders.remove_keys(keys.to_set()),
    decreases keys.len(),
{
    if keys.len() > 0 {
        lemma_remove_orders(s, keys.drop_last());
        assert(keys.drop_last().to_set().insert(keys.last()) =~= keys.to_set()) by {
            assert forall|k: u64| keys.to_set().contains(k) implies keys.drop_last().to_set().insert(
                keys.last(),
            ).contains(k) by {
                let i = choose|i: int| 0 <= i < keys.len() && keys[i] == k;
                if i < keys.len() - 1 {
                    assert(keys.drop_last()[i] == k);
                }
            }
            assert forall|k: u64| keys.drop_last().to_set().contains(k) implies keys.to_set().contains(
                k,
            ) by {
                let i = choose|i: int| 0 <= i < keys.drop_last().len() && keys.drop_last()[i] == k;
                assert(keys[i] == k);
            }
        }
        assert(s.orders.remove_keys(keys.drop_last().to_set()).remove(keys.last())
            =~= s.orders.remove_keys(keys.to_set()));
    } else {
        assert(s.orders.remove_keys(keys.to_set()) =~= s.orders);
    }
}

/// Once every market row and every order row that points at a stored user
/// has been removed, deleting the user succeeds.
pub proof fn lemma_delete_after_unlinking(
    s: LedgerView,
    id: Seq<char>,
    market_keys: Seq<u64>,
    order_keys: Seq<u64>,
)
    requires
        s.users.contains_key(id),
        s.related(Relation::Market, id).subset_of(market_keys.to_set()),
        s.related(Relation::Order, id).subset_of(order_keys.to_set()),
    ensures
        after_remove_orders(after_remove_markets(s, market_keys), order_keys).delete_outcome(id)
            == Ok::<(), LedgerError>(()),
{
    let m = after_remove_markets(s, market_keys);
    let t = after_remove_orders(m, order_keys);
    lemma_remove_markets(s, market_keys);
    lemma_remove_orders(m, order_keys);
    assert(!points_at(t.markets, id)) by {
        if points_at(t.markets, id) {
            let k = choose|k: u64| #[trigger] t.markets.contains_key(k) && t.markets[k] == id;
            assert(s.related(Relation::Market, id).contains(k));
        }
    }
    assert(!points_at(t.orders, id)) by {
        if points_at(t.orders, id) {
            let k = choose|k: u64| #[trigger] t.orders.contains_key(k) && t.orders[k] == id;
            assert(s.related(Relation::Order, id).contains(k));
        }
    }
}

} // verus!
