//! Boundary messages and responses.
//!
//! These records carry the logical content of the host's calls: the
//! initialize request, the one supported mutation, the two queries, and the
//! records a caller gets back. The wire encoding of these shapes belongs to
//! the host adapter, not to this crate.

use vstd::prelude::*;

use crate::state::Group;

verus! {

/// The initialize request: an optional owner address. When absent — or when
/// the host cannot validate it — the initializing caller becomes the owner.
#[derive(Debug, PartialEq, Eq)]
pub struct InitMsg {
    pub owner: Option<String>,
}

/// The mutating calls. Creating a group is the only one.
#[derive(Debug, PartialEq, Eq)]
pub enum ExecuteMsg {
    CreateGroup { group_name: String, token_amount: u128 },
}

/// The read-only calls: fetch one group by id, or list groups in ascending id
/// order with cursor pagination.
#[derive(Debug, PartialEq, Eq)]
pub enum QueryMsg {
    GetGroup { id: u64 },
    GroupList { start_after: Option<u64>, limit: Option<u32> },
}

/// One group projected into a query response, field for field.
#[derive(Debug, PartialEq, Eq)]
pub struct GroupData {
    pub id: u64,
    pub group_name: String,
    pub token_amount: u128,
}

/// The answer to a group listing: the page of records, ascending by id.
#[derive(Debug, PartialEq, Eq)]
pub struct ListResponse {
    pub groups: Vec<Group>,
}

/// A key/value pair attached to a success response.
#[derive(Debug, PartialEq, Eq)]
pub struct Attribute {
    pub key: String,
    pub value: String,
}

/// The success response of a state transition: its attributes name the method
/// applied and what it resolved or created.
#[derive(Debug, PartialEq, Eq)]
pub struct Response {
    pub attributes: Vec<Attribute>,
}

/// The answer to a query, one variant per query method.
#[derive(Debug, PartialEq, Eq)]
pub enum QueryAnswer {
    Group(GroupData),
    List(ListResponse),
}

} // verus!
