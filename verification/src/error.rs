//! Error taxonomy of the contract.
//!
//! `Unauthorized` is returned when a caller other than the owner attempts a
//! mutating call; `NotFound` when a referenced record is absent on load.
//! Storage itself is modelled in [`crate::state`] and cannot fail on its own,
//! so these are the only conditions a caller can observe.

use vstd::prelude::*;

verus! {

#[derive(Debug, PartialEq, Eq, Clone, Copy, Structural)]
pub enum ContractError {
    /// The caller of a mutating call is not the configured owner.
    Unauthorized,
    /// A referenced record (the config, the counter, or a group) is absent.
    NotFound,
}

impl ContractError {
    /// A human-readable rendering of the error.
    pub fn describe(&self) -> (r: &'static str)
        ensures
            *self == ContractError::Unauthorized ==> r@ == "unauthorized"@,
            *self == ContractError::NotFound ==> r@ == "not found"@,
    {
        match self {
            ContractError::Unauthorized => "unauthorized",
            ContractError::NotFound => "not found",
        }
    }
}

} // verus!
