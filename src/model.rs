use vstd::prelude::*;

use crate::error::LedgerError;
use crate::user::{Relation, UserRow};

verus! {

/// The ledger as mathematical values: each user id mapped to its balance in
/// millionths, and each market or order key mapped to the user id it points at.
pub struct LedgerView {
    pub users: Map<Seq<char>, i64>,
    pub markets: Map<u64, Seq<char>>,
    pub orders: Map<u64, Seq<char>>,
}

/// Whether some row of a referencing table points at `id`.
pub open spec fn points_at(links: Map<u64, Seq<char>>, id: Seq<char>) -> bool {
    exists|k: u64| #[trigger] links.contains_key(k) && links[k] == id
}

impl LedgerView {
    /// The ledger with no rows at all.
    pub open spec fn empty() -> LedgerView {
        LedgerView { users: Map::empty(), markets: Map::empty(), orders: Map::empty() }
    }

    /// No stored user has an empty id, and every market or order row points at
    /// a stored user.
    pub open spec fn valid(self) -> bool {
        &&& forall|id: Seq<char>| #[trigger] self.users.contains_key(id) ==> id.len() > 0
        &&& forall|k: u64|
            #[trigger] self.markets.contains_key(k) ==> self.users.contains_key(self.markets[k])
        &&& forall|k: u64|
            #[trigger] self.orders.contains_key(k) ==> self.users.contains_key(self.orders[k])
    }

    /// Whether any market or order row points at `id`.
    pub open spec fn referenced(self, id: Seq<char>) -> bool {
        points_at(self.markets, id) || points_at(self.orders, id)
    }

    /// What `create` answers.
    pub open spec fn create_outcome(self, id: Seq<char>, balance: i64) -> Result<
        UserRow,
        LedgerError,
    > {
        if id.len() == 0 {
            Err(LedgerError::InvalidArgument)
        } else if self.users.contains_key(id) {
            Err(LedgerError::DuplicateKey)
        } else {
            Ok(UserRow { id, balance_millionths: balance })
        }
    }

    /// The ledger after `create`.
    pub open spec fn after_create(self, id: Seq<char>, balance: i64) -> LedgerView {
        if self.create_outcome(id, balance) is Ok {
            LedgerView { users: self.users.insert(id, balance), ..self }
        } else {
            self
        }
    }

    /// What `get` answers.
    pub open spec fn get_outcome(self, id: Seq<char>) -> Result<UserRow, LedgerError> {
        if self.users.contains_key(id) {
            Ok(UserRow { id, balance_millionths: self.users[id] })
        } else {
            Err(LedgerError::NotFound)
        }
    }

    /// What `update_balance` answers.
    pub open spec fn update_outcome(self, id: Seq<char>) -> Result<(), LedgerError> {
        if self.users.contains_key(id) {
            Ok(())
        } else {
            Err(LedgerError::NotFound)
        }
    }

    /// The ledger after `update_balance`: the balance overwritten.
    pub open spec fn after_update(self, id: Seq<char>, balance: i64) -> LedgerView {
        if self.users.contains_key(id) {
            LedgerView { users: self.users.insert(id, balance), ..self }
        } else {
            self
        }
    }

    /// What `compare_and_update_balance` answers: the write goes through only
    /// where the stored balance is still the one the caller expects.
    pub open spec fn swap_outcome(self, id: Seq<char>, expected: i64) -> Result<(), LedgerError> {
        if !self.users.contains_key(id) {
            Err(LedgerError::NotFound)
        } else if self.users[id] != expected {
            Err(LedgerError::ConcurrentModification)
        } else {
            Ok(())
        }
    }

    /// The ledger after `compare_and_update_balance`.
    pub open spec fn after_swap(self, id: Seq<char>, expected: i64, balance: i64) -> LedgerView {
        if self.swap_outcome(id, expected) is Ok {
            LedgerView { users: self.users.insert(id, balance), ..self }
        } else {
            self
        }
    }

    /// What `delete` answers: a user still pointed at stays.
    pub open spec fn delete_outcome(self, id: Seq<char>) -> Result<(), LedgerError> {
        if !self.users.contains_key(id) {
            Err(LedgerError::NotFound)
        } else if self.referenced(id) {
            Err(LedgerError::ReferentialIntegrityViolation)
        } else {
            Ok(())
        }
    }

    /// The ledger after `delete`.
    pub open spec fn after_delete(self, id: Seq<char>) -> LedgerView {
        if self.delete_outcome(id) is Ok {
            LedgerView { users: self.users.remove(id), ..self }
        } else {
            self
        }
    }

    /// What adding a market or order row with this key and user answers.
    pub open spec fn link_outcome(self, links: Map<u64, Seq<char>>, key: u64, id: Seq<char>) -> Result<
        (),
        LedgerError,
    > {
        if links.contains_key(key) {
            Err(LedgerError::DuplicateKey)
        } else if !self.users.contains_key(id) {
            Err(LedgerError::NotFound)
        } else {
            Ok(())
        }
    }

    /// The ledger after `add_market`.
    pub open spec fn after_add_market(self, key: u64, id: Seq<char>) -> LedgerView {
        if self.link_outcome(self.markets, key, id) is Ok {
            LedgerView { markets: self.markets.insert(key, id), ..self }
        } else {
            self
        }
    }

    /// The ledger after `add_order`.
    pub open spec fn after_add_order(self, key: u64, id: Seq<char>) -> LedgerView {
        if self.link_outcome(self.orders, key, id) is Ok {
            LedgerView { orders: self.orders.insert(key, id), ..self }
        } else {
            self
        }
    }

    /// What removing a market or order row answers.
    pub open spec fn unlink_outcome(links: Map<u64, Seq<char>>, key: u64) -> Result<(), LedgerError> {
        if links.contains_key(key) {
            Ok(())
        } else {
            Err(LedgerError::NotFound)
        }
    }

    /// The ledger after `remove_market`.
    pub open spec fn after_remove_market(self, key: u64) -> LedgerView {
        LedgerView { markets: self.markets.remove(key), ..self }
    }

    /// The ledger after `remove_order`.
    pub open spec fn after_remove_order(self, key: u64) -> LedgerView {
        LedgerView { orders: self.orders.remove(key), ..self }
    }

    /// The table of back-references that a relation stands for.
    pub open spec fn links(self, relation: Relation) -> Map<u64, Seq<char>> {
        match relation {
            Relation::Market => self.markets,
            Relation::Order => self.orders,
        }
    }

    /// The keys of the rows of `relation` that point at `id`.
    pub open spec fn related(self, relation: Relation, id: Seq<char>) -> Set<u64> {
        Set::new(|k: u64| self.links(relation).contains_key(k) && self.links(relation)[k] == id)
    }
}

} // verus!
