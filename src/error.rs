use vstd::prelude::*;

verus! {

/// Why an operation on the ledger was refused. A refused operation leaves
/// every record as it was.
#[derive(Clone, Copy, Debug, PartialEq, Eq, Structural)]
pub enum LedgerError {
    /// No record has the key that was named.
    NotFound,
    /// A record with that key exists already.
    DuplicateKey,
    /// The input is malformed (an empty user id).
    InvalidArgument,
    /// Market or order rows still point at the user.
    ReferentialIntegrityViolation,
    /// The balance was no longer the one the caller had read.
    ConcurrentModification,
}

} // verus!
