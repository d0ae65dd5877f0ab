//! A minimal ledger of named groups, each carrying a token amount, guarded by
//! a single owner who alone may create entries. Anyone may read.
//!
//! The crate is organised leaves-first:
//! - [`state`]: the persistent store adapter — a typed, ordered key-value
//!   namespace holding a `Config` singleton, the `EntrySequence` counter and
//!   the `Group` collection keyed by ascending id;
//! - [`contract`]: the state-transition engine (initialize, create a group)
//!   and the query engine (fetch one group, list with cursor pagination);
//! - [`msg`]: the boundary message and response records;
//! - [`error`]: the error taxonomy;
//! - [`decimal`]: decimal rendering of ids for response attributes.

pub mod contract;
pub mod decimal;
pub mod error;
pub mod msg;
pub mod state;
