//! An in-memory ledger store for double-entry bookkeeping.
//!
//! The crate owns the account/transaction data model and its invariants, the
//! ledger store's insert/delete/sort/id-allocation surface, the hierarchy
//! resolver that walks parent chains, the balance aggregator, the document
//! codec, and the client-side rules of the expense-report protocol.  File and
//! network transport live outside the crate and hand plain values in and out.

pub mod account;
pub mod amount;
pub mod balance;
pub mod chart;
pub mod codec;
pub mod company;
pub mod date;
pub mod config;
pub mod numerals;
pub mod report;
pub mod session;
pub mod sorting;
pub mod transaction;
pub mod text;

use vstd::prelude::*;

verus! {

/// Errors of the ledger store and its queries.
#[derive(Debug, Clone, Copy, PartialEq, Eq, Structural)]
pub enum LedgerError {
    /// An id field does not hold a decimal numeral that fits the id space.
    IdParse,
    /// An insert was rejected because the id is already present.
    DuplicateId,
    /// A lookup by id found no matching entry.
    NotFound,
    /// A parent-chain walk revisited an id already on the chain.
    Cycle,
    /// No fresh id could be allocated: the id space is exhausted.
    Allocation,
}

} // verus!
