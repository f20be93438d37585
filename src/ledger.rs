use vstd::prelude::*;

use crate::error::LedgerError;
use crate::links::LinkTable;
use crate::model::{points_at, LedgerView};
use crate::user::{Model, Relation, UserRow};

verus! {

/// The mathematical value of an answer that carries a user row.
pub open spec fn row_result(r: Result<Model, LedgerError>) -> Result<UserRow, LedgerError> {
    match r {
        Ok(m) => Ok(m@),
        Err(e) => Err(e),
    }
}

/// The store of user rows together with the back-references of the market and
/// order rows. It owns the one copy of each user row.
pub struct Ledger {
    users: Vec<Model>,
    balances: Ghost<Map<Seq<char>, i64>>,
    markets: LinkTable,
    orders: LinkTable,
}

impl View for Ledger {
    type V = LedgerView;

    closed spec fn view(&self) -> LedgerView {
        LedgerView { users: self.balances@, markets: self.markets@, orders: self.orders@ }
    }
}

impl Ledger {
    /// The user rows agree with the map of balances: ids unique, each row in
    /// the map with its balance, each id of the map held by a row.
    closed spec fn rows_agree(users: Seq<Model>, balances: Map<Seq<char>, i64>) -> bool {
        &&& forall|i: int, j: int|
            0 <= i < users.len() && 0 <= j < users.len() && i != j ==> users[i].id@ != users[j].id@
        &&& forall|i: int|
            0 <= i < users.len() ==> {
                &&& #[trigger] balances.contains_key(users[i].id@)
                &&& balances[users[i].id@] == users[i].balance_millionths
            }
        &&& forall|id: Seq<char>|
            #[trigger] balances.contains_key(id) ==> exists|i: int|
                0 <= i < users.len() && users[i].id@ == id
    }

    /// The user rows agree with the balances, both link tables are well
    /// formed, and the view is valid.
    pub closed spec fn wf(&self) -> bool {
        &&& Self::rows_agree(self.users@, self.balances@)
        &&& self.markets.wf()
        &&& self.orders.wf()
        &&& self@.valid()
    }

    /// An empty ledger.
    pub fn new() -> (r: Ledger)
        ensures
            r.wf(),
            r@ == LedgerView::empty(),
    {
        Ledger {
            users: Vec::new(),
            balances: Ghost(Map::empty()),
            markets: LinkTable::new(),
            orders: LinkTable::new(),
        }
    }

    /// In every well-formed ledger no stored user has an empty id, and every
    /// market or order row points at a stored user.
    pub proof fn lemma_references_resolve(&self)
        requires
            self.wf(),
        ensures
            self@.valid(),
    {
    }

    /// Position of the user row with this id, if any.
    fn position(&self, id: &String) -> (r: Option<usize>)
        requires
            self.wf(),
        ensures
            r is None <==> !self@.users.contains_key(id@),
            r matches Some(i) ==> i < self.users@.len() && self.users@[i as int].id@ == id@,
    {
        let mut i: usize = 0;
        while i < self.users.len()
            invariant
                self.wf(),
                i <= self.users@.len(),
                forall|j: int| 0 <= j < i ==> self.users@[j].id@ != id@,
            decreases self.users@.len() - i,
        {
            if self.users[i].id == *id {
                assert(self.balances@.contains_key(self.users@[i as int].id@));
                return Some(i);
            }
            i = i + 1;
        }
        None
    }

    /// Registers a user with a caller-chosen id and an opening balance.
    /// Refused with `InvalidArgument` for an empty id and with `DuplicateKey`
    /// for an id already stored.
    pub fn create(&mut self, id: String, initial_balance_millionths: i64) -> (r: Result<
        Model,
        LedgerError,
    >)
        requires
            old(self).wf(),
        ensures
            final(self).wf(),
            row_result(r) == old(self)@.create_outcome(id@, initial_balance_millionths),
            final(self)@ == old(self)@.after_create(id@, initial_balance_millionths),
    {
        if id.as_str().is_empty() {
            return Err(LedgerError::InvalidArgument);
        }
        if self.position(&id).is_some() {
            return Err(LedgerError::DuplicateKey);
        }
        let ghost old_users = self.users@;
        let ghost key = id@;
        let ghost old_view = self@;
        let row = Model::new(id.clone(), initial_balance_millionths);
        self.users.push(Model::new(id, initial_balance_millionths));
        self.balances = Ghost(self.balances@.insert(key, initial_balance_millionths));
        assert forall|j: int| 0 <= j < old_users.len() implies old_users[j].id@ != key by {
            assert(old_view.users.contains_key(old_users[j].id@));
        }
        assert(self.users@[old_users.len() as int].id@ == key);
        assert(forall|j: int| 0 <= j < old_users.len() ==> self.users@[j] == old_users[j]);
        assert forall|k: u64| #[trigger] self@.markets.contains_key(k) implies self@.users.contains_key(
            self@.markets[k],
        ) by {
            assert(old_view.users.contains_key(old_view.markets[k]));
        }
        assert forall|k: u64| #[trigger] self@.orders.contains_key(k) implies self@.users.contains_key(
            self@.orders[k],
        ) by {
            assert(old_view.users.contains_key(old_view.orders[k]));
        }
        assert forall|k: Seq<char>| #[trigger] self.balances@.contains_key(k) implies exists|i: int|
            0 <= i < self.users@.len() && self.users@[i].id@ == k by {
            if k == key {
                assert(self.users@[old_users.len() as int].id@ == k);
            } else {
                let i = choose|i: int| 0 <= i < old_users.len() && old_users[i].id@ == k;
                assert(self.users@[i].id@ == k);
            }
        }
        Ok(row)
    }

    /// Reads the user row with this id; `NotFound` where there is none.
    pub fn get(&self, id: &String) -> (r: Result<Model, LedgerError>)
        requires
            self.wf(),
        ensures
            row_result(r) == self@.get_outcome(id@),
    {
        match self.position(id) {
            None => Err(LedgerError::NotFound),
            Some(i) => {
                let row = &self.users[i];
                assert(self.balances@.contains_key(self.users@[i as int].id@));
                Ok(Model::new(row.id.clone(), row.balance_millionths))
            },
        }
    }

    /// Writes `balance` into the row at position `i`.
    fn set_balance(&mut self, i: usize, balance: i64)
        requires
            old(self).wf(),
            i < old(self).users@.len(),
        ensures
            final(self).wf(),
            final(self)@ == (LedgerView {
                users: old(self)@.users.insert(old(self).users@[i as int].id@, balance),
                ..old(self)@
            }),
    {
        let ghost old_users = self.users@;
        let ghost key = self.users@[i as int].id@;
        let ghost old_view = self@;
        self.users[i].balance_millionths = balance;
        self.balances = Ghost(self.balances@.insert(key, balance));
        assert(forall|j: int| 0 <= j < self.users@.len() ==> self.users@[j].id@ == old_users[j].id@);
        assert(self@.users.dom() =~= old_view.users.dom());
        assert forall|j: int| 0 <= j < self.users@.len() implies {
            &&& #[trigger] self.balances@.contains_key(self.users@[j].id@)
            &&& self.balances@[self.users@[j].id@] == self.users@[j].balance_millionths
        } by {
            if j != i {
                assert(old_users[j].id@ != key);
                assert(self.users@[j] == old_users[j]);
            }
        }
        assert forall|k: Seq<char>| #[trigger] self.balances@.contains_key(k) implies exists|j: int|
            0 <= j < self.users@.len() && self.users@[j].id@ == k by {
            if k != key {
                let j = choose|j: int| 0 <= j < old_users.len() && old_users[j].id@ == k;
                assert(self.users@[j].id@ == k);
            } else {
                assert(self.users@[i as int].id@ == k);
            }
        }
    }

    /// Overwrites the balance of an existing user; `NotFound` where the id is
    /// not stored.
    pub fn update_balance(&mut self, id: &String, new_balance_millionths: i64) -> (r: Result<
        (),
        LedgerError,
    >)
        requires
            old(self).wf(),
        ensures
            final(self).wf(),
            r == old(self)@.update_outcome(id@),
            final(self)@ == old(self)@.after_update(id@, new_balance_millionths),
    {
        match self.position(id) {
            None => Err(LedgerError::NotFound),
            Some(i) => {
                self.set_balance(i, new_balance_millionths);
                Ok(())
            },
        }
    }

    /// Overwrites the balance only where it still equals `expected_millionths`,
    /// the value the caller read: a write based on a stale read is refused
    /// with `ConcurrentModification` instead of being lost.
    pub fn compare_and_update_balance(
        &mut self,
        id: &String,
        expected_millionths: i64,
        new_balance_millionths: i64,
    ) -> (r: Result<(), LedgerError>)
        requires
            old(self).wf(),
        ensures
            final(self).wf(),
            r == old(self)@.swap_outcome(id@, expected_millionths),
            final(self)@ == old(self)@.after_swap(id@, expected_millionths, new_balance_millionths),
    {
        match self.position(id) {
            None => Err(LedgerError::NotFound),
            Some(i) => {
                assert(self.balances@.contains_key(self.users@[i as int].id@));
                if self.users[i].balance_millionths != expected_millionths {
                    Err(LedgerError::ConcurrentModification)
                } else {
                    self.set_balance(i, new_balance_millionths);
                    Ok(())
                }
            },
        }
    }

    /// Removes a user that no market or order row points at; `NotFound` where
    /// the id is not stored, `ReferentialIntegrityViolation` where it is still
    /// pointed at.
    pub fn delete(&mut self, id: &String) -> (r: Result<(), LedgerError>)
        requires
            old(self).wf(),
        ensures
            final(self).wf(),
            r == old(self)@.delete_outcome(id@),
            final(self)@ == old(self)@.after_delete(id@),
    {
        let p = match self.position(id) {
            None => {
                return Err(LedgerError::NotFound);
            },
            Some(p) => p,
        };
        if self.markets.references(id) || self.orders.references(id) {
            return Err(LedgerError::ReferentialIntegrityViolation);
        }
        let ghost old_view = self@;
        let ghost old_users = self.users@;
        let ghost key = id@;
        self.users.remove(p);
        self.balances = Ghost(self.balances@.remove(key));
        assert forall|j: int| 0 <= j < self.users@.len() implies {
            &&& #[trigger] self.balances@.contains_key(self.users@[j].id@)
            &&& self.balances@[self.users@[j].id@] == self.users@[j].balance_millionths
        } by {
            if j < p {
                assert(self.users@[j] == old_users[j]);
                assert(old_users[j].id@ != key);
            } else {
                assert(self.users@[j] == old_users[j + 1]);
                assert(old_users[j + 1].id@ != key);
            }
        }
        assert forall|k: Seq<char>| #[trigger] self.balances@.contains_key(k) implies exists|j: int|
            0 <= j < self.users@.len() && self.users@[j].id@ == k by {
            let j = choose|j: int| 0 <= j < old_users.len() && old_users[j].id@ == k;
            if j < p {
                assert(self.users@[j].id@ == k);
            } else {
                assert(self.users@[j - 1].id@ == k);
            }
        }
        assert forall|k: u64| #[trigger] self@.markets.contains_key(k) implies self@.users.contains_key(
            self@.markets[k],
        ) by {
            assert(old_view.users.contains_key(old_view.markets[k]));
            assert(!points_at(old_view.markets, key));
        }
        assert forall|k: u64| #[trigger] self@.orders.contains_key(k) implies self@.users.contains_key(
            self@.orders[k],
        ) by {
            assert(old_view.users.contains_key(old_view.orders[k]));
            assert(!points_at(old_view.orders, key));
        }
        Ok(())
    }

    /// Records a market row with key `key` owned by `owner_id`.
    /// `DuplicateKey` where the key is taken, `NotFound` where no such user is
    /// stored: no row may point at a missing user.
    pub fn add_market(&mut self, key: u64, owner_id: String) -> (r: Result<(), LedgerError>)
        requires
            old(self).wf(),
        ensures
            final(self).wf(),
            r == old(self)@.link_outcome(old(self)@.markets, key, owner_id@),
            final(self)@ == old(self)@.after_add_market(key, owner_id@),
    {
        if self.markets.contains(key) {
            return Err(LedgerError::DuplicateKey);
        }
        if self.position(&owner_id).is_none() {
            return Err(LedgerError::NotFound);
        }
        let ghost old_view = self@;
        let ghost oid = owner_id@;
        assert(old_view.users.contains_key(oid));
        self.markets.insert(key, owner_id);
        assert forall|k: u64| #[trigger] self@.markets.contains_key(k) implies self@.users.contains_key(
            self@.markets[k],
        ) by {
            if k != key {
                assert(old_view.markets.contains_key(k));
            } else {
                assert(self@.markets[k] == oid);
            }
        }
        assert(self@.users == old_view.users && self@.orders == old_view.orders);
        Ok(())
    }

    /// Records an order row with key `key` placed by `user_id`.
    /// `DuplicateKey` where the key is taken, `NotFound` where no such user is
    /// stored.
    pub fn add_order(&mut self, key: u64, user_id: String) -> (r: Result<(), LedgerError>)
        requires
            old(self).wf(),
        ensures
            final(self).wf(),
            r == old(self)@.link_outcome(old(self)@.orders, key, user_id@),
            final(self)@ == old(self)@.after_add_order(key, user_id@),
    {
        if self.orders.contains(key) {
            return Err(LedgerError::DuplicateKey);
        }
        if self.position(&user_id).is_none() {
            return Err(LedgerError::NotFound);
        }
        let ghost old_view = self@;
        self.orders.insert(key, user_id);
        assert forall|k: u64| #[trigger] self@.orders.contains_key(k) implies self@.users.contains_key(
            self@.orders[k],
        ) by {
            if k != key {
                assert(old_view.orders.contains_key(k));
            }
        }
        assert(self@.users == old_view.users && self@.markets == old_view.markets);
        Ok(())
    }

    /// Drops the market row with key `key`; `NotFound` where there is none.
    pub fn remove_market(&mut self, key: u64) -> (r: Result<(), LedgerError>)
        requires
            old(self).wf(),
        ensures
            final(self).wf(),
            r == LedgerView::unlink_outcome(old(self)@.markets, key),
            final(self)@ == old(self)@.after_remove_market(key),
    {
        let ghost old_view = self@;
        let found = self.markets.remove(key);
        assert forall|k: u64| #[trigger] self@.markets.contains_key(k) implies self@.users.contains_key(
            self@.markets[k],
        ) by {
            assert(old_view.markets.contains_key(k));
        }
        assert(self@.users == old_view.users && self@.orders == old_view.orders);
        if found {
            Ok(())
        } else {
            Err(LedgerError::NotFound)
        }
    }

    /// Drops the order row with key `key`; `NotFound` where there is none.
    pub fn remove_order(&mut self, key: u64) -> (r: Result<(), LedgerError>)
        requires
            old(self).wf(),
        ensures
            final(self).wf(),
            r == LedgerView::unlink_outcome(old(self)@.orders, key),
            final(self)@ == old(self)@.after_remove_order(key),
    {
        let ghost old_view = self@;
        let found = self.orders.remove(key);
        assert forall|k: u64| #[trigger] self@.orders.contains_key(k) implies self@.users.contains_key(
            self@.orders[k],
        ) by {
            assert(old_view.orders.contains_key(k));
        }
        assert(self@.users == old_view.users && self@.markets == old_view.markets);
        if found {
            Ok(())
        } else {
            Err(LedgerError::NotFound)
        }
    }

    /// The keys of all rows of the given relation that point at `id`, each
    /// once; empty where there are none.
    pub fn related_keys(&self, relation: Relation, id: &String) -> (r: Vec<u64>)
        requires
            self.wf(),
        ensures
            r@.no_duplicates(),
            r@.to_set() == self@.related(relation, id@),
    {
        let r = match relation {
            Relation::Market => self.markets.keys_for(id),
            Relation::Order => self.orders.keys_for(id),
        };
        assert(r@.to_set() =~= self@.related(relation, id@));
        r
    }

    /// The keys of all market rows owned by `id`, each once; empty where there
    /// are none.
    pub fn list_markets_for(&self, id: &String) -> (r: Vec<u64>)
        requires
            self.wf(),
        ensures
            r@.no_duplicates(),
            r@.to_set() == self@.related(Relation::Market, id@),
    {
        self.related_keys(Relation::Market, id)
    }

    /// The keys of all order rows placed by `id`, each once; empty where there
    /// are none.
    pub fn list_orders_for(&self, id: &String) -> (r: Vec<u64>)
        requires
            self.wf(),
        ensures
            r@.no_duplicates(),
            r@.to_set() == self@.related(Relation::Order, id@),
    {
        self.related_keys(Relation::Order, id)
    }
}

} // verus!
