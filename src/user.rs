use vstd::prelude::*;

verus! {

/// A stored user row: its key, chosen by the caller and never changed, and
/// its balance as a signed count of millionths of a currency unit.
pub struct Model {
    pub id: String,
    pub balance_millionths: i64,
}

/// What a user row holds, as mathematical values.
pub struct UserRow {
    pub id: Seq<char>,
    pub balance_millionths: i64,
}

impl View for Model {
    type V = UserRow;

    open spec fn view(&self) -> UserRow {
        UserRow { id: self.id@, balance_millionths: self.balance_millionths }
    }
}

impl Model {
    /// Builds a row from its two columns.
    pub fn new(id: String, balance_millionths: i64) -> (r: Model)
        ensures
            r@ == (UserRow { id: id@, balance_millionths }),
    {
        Model { id, balance_millionths }
    }
}

/// The two kinds of rows that point back at a user: each `Market` row names
/// its owner, each `Order` row the user who placed it.
#[derive(Clone, Copy, Debug, PartialEq, Eq, Structural)]
pub enum Relation {
    Market,
    Order,
}

} // verus!
