use cosmunity::contract::execute;
use cosmunity::contract::instantiate;
use cosmunity::contract::query;
use cosmunity::error::ContractError;
use cosmunity::msg::Attribute;
use cosmunity::msg::ExecuteMsg;
use cosmunity::msg::GroupData;
use cosmunity::msg::InitMsg;
use cosmunity::msg::QueryAnswer;
use cosmunity::msg::QueryMsg;
use cosmunity::state::Config;
use cosmunity::state::Group;
use cosmunity::state::Store;

#[test]
fn proper_initialization() {
    let mut deps = Store::new();
    let msg = InitMsg { owner: None };
    let res = instantiate(&mut deps, "creator".to_string(), msg.owner).unwrap();
    assert_eq!(2, res.attributes.len());

    let state = deps.load_config().unwrap();
    assert_eq!(
        state,
        Config {
            owner: "creator".to_string(),
        }
    );

    let msg = InitMsg {
        owner: Some("specified_owner".to_string()),
    };
    let res = instantiate(&mut deps, "creator".to_string(), msg.owner).unwrap();
    assert_eq!(2, res.attributes.len());

    let state = deps.load_config().unwrap();
    assert_eq!(
        state,
        Config {
            owner: "specified_owner".to_string(),
        }
    );
}

#[test]
fn create_group() {
    let mut deps = Store::new();
    let msg = InitMsg { owner: None };
    let res = instantiate(&mut deps, "creator".to_string(), msg.owner).unwrap();
    assert_eq!(2, res.attributes.len());

    let msg = ExecuteMsg::CreateGroup {
        group_name: "Cosmunity".to_string(),
        token_amount: 1907u128,
    };

    let res = execute(&mut deps, "creator".to_string(), msg).unwrap();
    assert_eq!(
        res.attributes,
        vec![
            Attribute {
                key: "method".to_string(),
                value: "create_group".to_string(),
            },
            Attribute {
                key: "new_group_id".to_string(),
                value: "1".to_string(),
            },
        ]
    );

    let res = query(&deps, QueryMsg::GetGroup { id: 1 }).unwrap();
    match res {
        QueryAnswer::Group(entry) => assert_eq!(
            GroupData {
                id: 1,
                group_name: "Cosmunity".to_string(),
                token_amount: 1907u128,
            },
            entry
        ),
        QueryAnswer::List(_) => panic!("expected a single group"),
    }

    let msg = ExecuteMsg::CreateGroup {
        group_name: "Cosmunity Official".to_string(),
        token_amount: 1907u128,
    };
    let res = execute(&mut deps, "creator".to_string(), msg).unwrap();
    assert_eq!(
        res.attributes,
        vec![
            Attribute {
                key: "method".to_string(),
                value: "create_group".to_string(),
            },
            Attribute {
                key: "new_group_id".to_string(),
                value: "2".to_string(),
            },
        ]
    );

    let res = query(
        &deps,
        QueryMsg::GroupList {
            start_after: None,
            limit: None,
        },
    )
    .unwrap();
    match res {
        QueryAnswer::List(list) => assert_eq!(
            Vec::from([
                Group {
                    id: 1,
                    group_name: "Cosmunity".to_string(),
                    token_amount: 1907u128,
                },
                Group {
                    id: 2,
                    group_name: "Cosmunity Official".to_string(),
                    token_amount: 1907u128,
                },
            ]),
            list.groups
        ),
        QueryAnswer::Group(_) => panic!("expected a listing"),
    }
}

#[test]
fn instantiate_reports_method_and_owner() {
    let mut deps = Store::new();
    let res = instantiate(&mut deps, "creator".to_string(), None).unwrap();
    assert_eq!(
        res.attributes,
        vec![
            Attribute {
                key: "method".to_string(),
                value: "instantiate".to_string(),
            },
            Attribute {
                key: "owner".to_string(),
                value: "creator".to_string(),
            },
        ]
    );
}

#[test]
fn invalid_owner_falls_back_to_caller() {
    let mut deps = Store::new();
    // The request named an owner ("not an address"), but the host could not
    // validate the string and handed `None` down: the initializing caller
    // becomes the owner.
    let validated: Option<String> = None;
    let res = instantiate(&mut deps, "creator".to_string(), validated).unwrap();
    assert_eq!(
        res.attributes[1],
        Attribute {
            key: "owner".to_string(),
            value: "creator".to_string(),
        }
    );
    let state = deps.load_config().unwrap();
    assert_eq!(
        state,
        Config {
            owner: "creator".to_string(),
        }
    );
}

#[test]
fn entry_sequence_zero_after_initialization() {
    let mut deps = Store::new();
    let res = instantiate(&mut deps, "creator".to_string(), None);
    assert!(res.is_ok());
    assert_eq!(deps.load_entry_seq(), Ok(0u64));
}

#[test]
fn unauthorized_create_leaves_state_unchanged() {
    let mut deps = Store::new();
    instantiate(&mut deps, "creator".to_string(), None).unwrap();
    let msg = ExecuteMsg::CreateGroup {
        group_name: "Cosmunity".to_string(),
        token_amount: 1907u128,
    };
    execute(&mut deps, "creator".to_string(), msg).unwrap();

    let msg = ExecuteMsg::CreateGroup {
        group_name: "Intrusion".to_string(),
        token_amount: 1u128,
    };
    let res = execute(&mut deps, "intruder".to_string(), msg);
    assert_eq!(res, Err(ContractError::Unauthorized));

    // The counter and the group collection are untouched.
    assert_eq!(deps.load_entry_seq(), Ok(1u64));
    let res = query(
        &deps,
        QueryMsg::GroupList {
            start_after: None,
            limit: None,
        },
    )
    .unwrap();
    match res {
        QueryAnswer::List(list) => {
            assert_eq!(1, list.groups.len());
            assert_eq!(
                list.groups[0],
                Group {
                    id: 1,
                    group_name: "Cosmunity".to_string(),
                    token_amount: 1907u128,
                }
            );
        }
        QueryAnswer::Group(_) => panic!("expected a listing"),
    }
}

#[test]
fn ids_start_at_one_and_increment() {
    let mut deps = Store::new();
    instantiate(&mut deps, "creator".to_string(), None).unwrap();
    let names = ["alpha", "beta", "gamma", "delta"];
    for (k, name) in names.iter().enumerate() {
        let msg = ExecuteMsg::CreateGroup {
            group_name: name.to_string(),
            token_amount: (k as u128) * 1000,
        };
        let res = execute(&mut deps, "creator".to_string(), msg).unwrap();
        assert_eq!(
            res.attributes[1],
            Attribute {
                key: "new_group_id".to_string(),
                value: (k + 1).to_string(),
            }
        );
    }
    assert_eq!(deps.load_entry_seq(), Ok(4u64));
}

#[test]
fn create_before_initialization_fails_not_found() {
    let mut deps = Store::new();
    let msg = ExecuteMsg::CreateGroup {
        group_name: "Cosmunity".to_string(),
        token_amount: 1907u128,
    };
    let res = execute(&mut deps, "creator".to_string(), msg);
    assert_eq!(res, Err(ContractError::NotFound));
}

#[test]
fn get_group_never_created_fails_not_found() {
    let mut deps = Store::new();
    instantiate(&mut deps, "creator".to_string(), None).unwrap();
    let res = query(&deps, QueryMsg::GetGroup { id: 1 });
    assert_eq!(res, Err(ContractError::NotFound));

    let msg = ExecuteMsg::CreateGroup {
        group_name: "Cosmunity".to_string(),
        token_amount: 1907u128,
    };
    execute(&mut deps, "creator".to_string(), msg).unwrap();
    let res = query(&deps, QueryMsg::GetGroup { id: 99 });
    assert_eq!(res, Err(ContractError::NotFound));
    assert!(query(&deps, QueryMsg::GetGroup { id: 1 }).is_ok());
}
