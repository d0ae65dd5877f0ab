//! The state-transition engine and the query engine.
//!
//! The transitions are `instantiate` (write the config and zero the counter)
//! and `execute` (route the one mutating call to `create_group`). The queries
//! are `query_group` (one record by id) and `query_group_list` (ascending,
//! cursor-paginated listing), routed by `query`.
//!
//! Address validation belongs to the host: the host validates the owner
//! string of an initialize request and hands the outcome to `instantiate` —
//! `None` when the request carried no owner or an invalid one.

use vstd::prelude::*;

use crate::decimal::dec_str;
use crate::decimal::u64_to_decimal;
use crate::error::ContractError;
use crate::msg::Attribute;
use crate::msg::ExecuteMsg;
use crate::msg::GroupData;
use crate::msg::ListResponse;
use crate::msg::QueryAnswer;
use crate::msg::QueryMsg;
use crate::msg::Response;
use crate::state::Config;
use crate::state::Group;
use crate::state::GroupView;
use crate::state::Store;
use crate::state::StoreView;
use crate::state::group_with_id;
use crate::state::has_group;
use crate::state::ids_complete;
use crate::state::lemma_sequential_ids;
use crate::state::page;
use crate::state::saved;
use crate::state::views;

verus! {

/// The page size of a listing that names none.
pub const DEFAULT_LIMIT: u32 = 10;

/// The hard cap on the page size of a listing.
pub const MAX_LIMIT: u32 = 30;

/// The owner an initialization resolves: the host-validated owner of the
/// request when there is one, the initializing caller otherwise.
pub open spec fn resolved_owner(validated_owner: Option<String>, sender: String) -> Seq<char> {
    match validated_owner {
        Some(o) => o@,
        None => sender@,
    }
}

/// What a group creation does to the store, and what it returns: the id of
/// the created group, or the error. The store is unchanged on every error.
pub open spec fn create_group_spec(
    v: StoreView,
    sender: Seq<char>,
    group_name: Seq<char>,
    token_amount: u128,
) -> (StoreView, Result<u64, ContractError>) {
    match v.config {
        None => (v, Err(ContractError::NotFound)),
        Some(owner) => if sender != owner {
            (v, Err(ContractError::Unauthorized))
        } else {
            match v.entry_seq {
                None => (v, Err(ContractError::NotFound)),
                Some(n) => {
                    let id = (n + 1) as u64;
                    let g = GroupView { id, group_name, token_amount };
                    (
                        StoreView {
                            config: v.config,
                            entry_seq: Some(id),
                            groups: saved(v.groups, g),
                        },
                        Ok(id),
                    )
                },
            }
        },
    }
}

/// What fetching one group returns: the stored record, field for field, or
/// `NotFound`.
pub open spec fn query_group_spec(v: StoreView, id: u64) -> Result<GroupView, ContractError> {
    if has_group(v.groups, id) {
        Ok(group_with_id(v.groups, id))
    } else {
        Err(ContractError::NotFound)
    }
}

/// The record cap a listing runs under: the requested limit, or
/// [`DEFAULT_LIMIT`] when none is named, never above [`MAX_LIMIT`].
pub open spec fn effective_limit(limit: Option<u32>) -> u32 {
    let l = match limit {
        Some(l) => l,
        None => DEFAULT_LIMIT,
    };
    if l > MAX_LIMIT {
        MAX_LIMIT
    } else {
        l
    }
}

/// The mathematical value of a response record.
pub open spec fn data_view(d: GroupData) -> GroupView {
    GroupView { id: d.id, group_name: d.group_name@, token_amount: d.token_amount }
}

/// Whether an attribute carries exactly this key and value.
pub open spec fn attr_is(a: Attribute, key: Seq<char>, value: Seq<char>) -> bool {
    a.key@ == key && a.value@ == value
}

/// The success response of an initialization: the method tag and the
/// resolved owner.
pub open spec fn is_instantiate_response(r: Response, owner: Seq<char>) -> bool {
    &&& r.attributes@.len() == 2
    &&& attr_is(r.attributes@[0], "method"@, "instantiate"@)
    &&& attr_is(r.attributes@[1], "owner"@, owner)
}

/// The success response of a group creation: the method tag and the new id
/// as a decimal string.
pub open spec fn is_create_response(r: Response, id: u64) -> bool {
    &&& r.attributes@.len() == 2
    &&& attr_is(r.attributes@[0], "method"@, "create_group"@)
    &&& attr_is(r.attributes@[1], "new_group_id"@, dec_str(id as int))
}

/// Initializes the namespace: persists the config with the resolved owner and
/// zeroes the entry-sequence counter. `validated_owner` is the host's
/// validation of the request's owner field — `None` when the request carried
/// no owner or one the host rejected; the initializing caller then becomes
/// the owner. The group collection is untouched.
pub fn instantiate(store: &mut Store, sender: String, validated_owner: Option<String>) -> (r:
    Result<Response, ContractError>)
    ensures
        final(store)@.config == Some(resolved_owner(validated_owner, sender)),
        final(store)@.entry_seq == Some(0u64),
        final(store)@.groups == old(store)@.groups,
        old(store).wf() ==> final(store).wf(),
        r is Ok,
        r matches Ok(resp) ==> is_instantiate_response(
            resp,
            resolved_owner(validated_owner, sender),
        ),
{
    let owner: String = match validated_owner {
        Some(o) => o,
        None => sender,
    };
    store.save_config(Config { owner: owner.clone() });
    store.save_entry_seq(0);
    let resp = Response {
        attributes: vec![
            Attribute { key: "method".to_owned(), value: "instantiate".to_owned() },
            Attribute { key: "owner".to_owned(), value: owner },
        ],
    };
    Ok(resp)
}

/// Applies a mutating call to the store. `CreateGroup` is the only one; it
/// requires the caller to be the configured owner.
pub fn execute(store: &mut Store, sender: String, msg: ExecuteMsg) -> (r: Result<
    Response,
    ContractError,
>)
    requires
        old(store).wf(),
        old(store)@.entry_seq matches Some(n) ==> n < u64::MAX,
    ensures
        final(store).wf(),
        match msg {
            ExecuteMsg::CreateGroup { group_name, token_amount } => {
                &&& final(store)@ == create_group_spec(
                    old(store)@,
                    sender@,
                    group_name@,
                    token_amount,
                ).0
                &&& match create_group_spec(
                    old(store)@,
                    sender@,
                    group_name@,
                    token_amount,
                ).1 {
                    Ok(id) => r matches Ok(resp) && is_create_response(resp, id),
                    Err(e) => r == Err::<Response, ContractError>(e),
                }
            },
        },
{
    match msg {
        ExecuteMsg::CreateGroup { group_name, token_amount } => create_group(
            store,
            sender,
            group_name,
            token_amount,
        ),
    }
}

/// Creates a group: reads and authorizes against the config, advances the
/// entry-sequence counter by one, and persists the new record under the
/// fresh id. On any error — unauthorized caller, or an uninitialized
/// namespace — the store is left unchanged.
pub fn create_group(
    store: &mut Store,
    sender: String,
    group_name: String,
    token_amount: u128,
) -> (r: Result<Response, ContractError>)
    requires
        old(store).wf(),
        old(store)@.entry_seq matches Some(n) ==> n < u64::MAX,
    ensures
        final(store).wf(),
        final(store)@ == create_group_spec(old(store)@, sender@, group_name@, token_amount).0,
        match create_group_spec(old(store)@, sender@, group_name@, token_amount).1 {
            Ok(id) => r matches Ok(resp) && is_create_response(resp, id),
            Err(e) => r == Err::<Response, ContractError>(e),
        },
{
    let ghost v0 = old(store)@;
    let config = match store.load_config() {
        Ok(c) => c,
        Err(e) => {
            proof {
                assert(final(store)@ =~= create_group_spec(v0, sender@, group_name@, token_amount).0);
            }
            return Err(e);
        },
    };
    if sender != config.owner {
        proof {
            assert(final(store)@ =~= create_group_spec(v0, sender@, group_name@, token_amount).0);
        }
        return Err(ContractError::Unauthorized);
    }
    let n = match store.load_entry_seq() {
        Ok(n) => n,
        Err(e) => {
            proof {
                assert(final(store)@ =~= create_group_spec(v0, sender@, group_name@, token_amount).0);
            }
            return Err(e);
        },
    };
    let id = n + 1;
    store.save_entry_seq(id);
    store.save_group(Group { id, group_name, token_amount });
    let resp = Response {
        attributes: vec![
            Attribute { key: "method".to_owned(), value: "create_group".to_owned() },
            Attribute { key: "new_group_id".to_owned(), value: u64_to_decimal(id) },
        ],
    };
    proof {
        assert(final(store)@ =~= create_group_spec(v0, sender@, group_name@, token_amount).0);
    }
    Ok(resp)
}

/// Answers a read-only call: one group by id, or one page of the listing.
pub fn query(store: &Store, msg: QueryMsg) -> (r: Result<QueryAnswer, ContractError>)
    requires
        store.wf(),
    ensures
        match msg {
            QueryMsg::GetGroup { id } => match r {
                Ok(a) => a matches QueryAnswer::Group(d) && query_group_spec(store@, id)
                    == Ok::<GroupView, ContractError>(data_view(d)),
                Err(e) => query_group_spec(store@, id) == Err::<GroupView, ContractError>(e),
            },
            QueryMsg::GroupList { start_after, limit } => r matches Ok(a) && a matches QueryAnswer::List(lr)
                && views(lr.groups@) == page(
                store@.groups,
                start_after,
                effective_limit(limit) as int,
            ),
        },
{
    match msg {
        QueryMsg::GetGroup { id } => match query_group(store, id) {
            Ok(d) => Ok(QueryAnswer::Group(d)),
            Err(e) => Err(e),
        },
        QueryMsg::GroupList { start_after, limit } => match query_group_list(
            store,
            start_after,
            limit,
        ) {
            Ok(lr) => Ok(QueryAnswer::List(lr)),
            Err(e) => Err(e),
        },
    }
}

/// Fetches one group by id, projected field for field into a response
/// record; fails `NotFound` when no record carries the id.
pub fn query_group(store: &Store, id: u64) -> (r: Result<GroupData, ContractError>)
    requires
        store.wf(),
    ensures
        match r {
            Ok(d) => query_group_spec(store@, id) == Ok::<GroupView, ContractError>(data_view(d)),
            Err(e) => query_group_spec(store@, id) == Err::<GroupView, ContractError>(e),
        },
{
    match store.load_group(id) {
        Ok(g) => Ok(GroupData { id: g.id, group_name: g.group_name, token_amount: g.token_amount }),
        Err(e) => Err(e),
    }
}

/// Lists one page of groups: ascending by id, strictly after the cursor when
/// one is named, at most [`effective_limit`] records. A cursor past every
/// stored id yields an empty page; it is not an error.
pub fn query_group_list(store: &Store, start_after: Option<u64>, limit: Option<u32>) -> (r: Result<
    ListResponse,
    ContractError,
>)
    requires
        store.wf(),
    ensures
        r is Ok,
        r matches Ok(lr) ==> views(lr.groups@) == page(
            store@.groups,
            start_after,
            effective_limit(limit) as int,
        ),
{
    let l = match limit {
        Some(l) => l,
        None => DEFAULT_LIMIT,
    };
    let l = if l > MAX_LIMIT {
        MAX_LIMIT
    } else {
        l
    };
    let groups = store.list_after(start_after, l as usize);
    Ok(ListResponse { groups })
}

/// Law: a creation attempt by anyone but the configured owner fails
/// `Unauthorized` and leaves the store — counter and group collection
/// included — unchanged.
pub proof fn lemma_unauthorized_create_unchanged(
    v: StoreView,
    sender: Seq<char>,
    group_name: Seq<char>,
    token_amount: u128,
)
    requires
        v.config matches Some(owner) && sender != owner,
    ensures
        create_group_spec(v, sender, group_name, token_amount) == (
            v,
            Err::<u64, ContractError>(ContractError::Unauthorized),
        ),
{
}

/// Law: a creation by the owner returns the counter plus one as the new id,
/// advances the counter by exactly one, and saves a record carrying exactly
/// the given name and amount under that id — whatever the name and amount
/// are.
pub proof fn lemma_create_increments(
    v: StoreView,
    sender: Seq<char>,
    group_name: Seq<char>,
    token_amount: u128,
)
    requires
        v.config matches Some(owner) && sender == owner,
        v.entry_seq matches Some(n) && n < u64::MAX,
    ensures
        ({
            let n = v.entry_seq->Some_0;
            let outcome = create_group_spec(v, sender, group_name, token_amount);
            &&& outcome.1 == Ok::<u64, ContractError>((n + 1) as u64)
            &&& outcome.0.entry_seq == Some((n + 1) as u64)
            &&& outcome.0.config == v.config
            &&& outcome.0.groups == saved(
                v.groups,
                (GroupView { id: (n + 1) as u64, group_name, token_amount }),
            )
        }),
{
}

/// Law: successive creations assign consecutive ids. A freshly initialized
/// namespace holds no groups and a counter of zero — ids `1..=0`, vacuously —
/// and every successful creation by the owner takes a store holding exactly
/// the ids `1..=n` with counter `n` to one holding exactly `1..=n + 1` with
/// counter `n + 1`, the new record appended at the end. So the first created
/// group gets id 1, the next id 2, and so on, whatever names and amounts the
/// requests carry.
pub proof fn lemma_create_preserves_ids(
    v: StoreView,
    sender: Seq<char>,
    group_name: Seq<char>,
    token_amount: u128,
)
    requires
        v.config matches Some(owner) && sender == owner,
        v.entry_seq matches Some(n) && n < u64::MAX && ids_complete(v.groups, n),
    ensures
        ({
            let n = v.entry_seq->Some_0;
            let next = create_group_spec(v, sender, group_name, token_amount).0;
            &&& next.entry_seq == Some((n + 1) as u64)
            &&& next.groups == v.groups.push(
                (GroupView { id: (n + 1) as u64, group_name, token_amount }),
            )
            &&& ids_complete(next.groups, (n + 1) as u64)
        }),
{
    let n = v.entry_seq->Some_0;
    lemma_sequential_ids(
        v.groups,
        n,
        GroupView { id: (n + 1) as u64, group_name, token_amount },
    );
}

/// Law: the page size defaults to ten, never exceeds thirty, and honours any
/// requested limit up to that cap.
pub proof fn lemma_effective_limit(limit: Option<u32>)
    ensures
        limit is None ==> effective_limit(limit) == DEFAULT_LIMIT,
        effective_limit(limit) <= MAX_LIMIT,
        match limit {
            Some(l) => l <= MAX_LIMIT ==> effective_limit(limit) == l,
            None => true,
        },
{
}

} // verus!
