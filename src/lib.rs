//! A ledger of user rows, each with a fixed-point balance in millionths of a
//! currency unit, and of the market and order rows that point back at them.
//! Every operation is stated over a mathematical model (`model::LedgerView`)
//! and proved against it; `laws` proves how the operations combine.

pub mod error;
pub mod laws;
pub mod ledger;
pub mod links;
pub mod model;
pub mod user;
