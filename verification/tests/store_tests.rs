use cosmunity::decimal::u64_to_decimal;
use cosmunity::error::ContractError;
use cosmunity::state::Config;
use cosmunity::state::Group;
use cosmunity::state::Store;

#[test]
fn empty_store_loads_fail_not_found() {
    let deps = Store::new();
    assert_eq!(deps.load_config(), Err(ContractError::NotFound));
    assert_eq!(deps.load_entry_seq(), Err(ContractError::NotFound));
    assert_eq!(deps.load_group(1), Err(ContractError::NotFound));
}

#[test]
fn saved_groups_keep_ascending_key_order() {
    let mut deps = Store::new();
    deps.save_group(Group {
        id: 5,
        group_name: "five".to_string(),
        token_amount: 50,
    });
    deps.save_group(Group {
        id: 2,
        group_name: "two".to_string(),
        token_amount: 20,
    });
    deps.save_group(Group {
        id: 9,
        group_name: "nine".to_string(),
        token_amount: 90,
    });
    let listed = deps.list_after(None, 10);
    let ids: Vec<u64> = listed.iter().map(|g| g.id).collect();
    assert_eq!(ids, vec![2, 5, 9]);
}

#[test]
fn saving_an_existing_key_replaces_the_record() {
    let mut deps = Store::new();
    deps.save_group(Group {
        id: 3,
        group_name: "before".to_string(),
        token_amount: 1,
    });
    deps.save_group(Group {
        id: 3,
        group_name: "after".to_string(),
        token_amount: 2,
    });
    let listed = deps.list_after(None, 10);
    assert_eq!(1, listed.len());
    assert_eq!(
        listed[0],
        Group {
            id: 3,
            group_name: "after".to_string(),
            token_amount: 2,
        }
    );
    assert_eq!(
        deps.load_group(3),
        Ok(Group {
            id: 3,
            group_name: "after".to_string(),
            token_amount: 2,
        })
    );
}

#[test]
fn config_overwrite_keeps_latest_owner() {
    let mut deps = Store::new();
    deps.save_config(Config {
        owner: "first".to_string(),
    });
    deps.save_config(Config {
        owner: "second".to_string(),
    });
    assert_eq!(
        deps.load_config(),
        Ok(Config {
            owner: "second".to_string(),
        })
    );
}

#[test]
fn entry_sequence_roundtrip() {
    let mut deps = Store::new();
    deps.save_entry_seq(0);
    assert_eq!(deps.load_entry_seq(), Ok(0u64));
    deps.save_entry_seq(41);
    assert_eq!(deps.load_entry_seq(), Ok(41u64));
}

#[test]
fn decimal_rendering_is_exact() {
    assert_eq!(u64_to_decimal(0), "0".to_string());
    assert_eq!(u64_to_decimal(7), "7".to_string());
    assert_eq!(u64_to_decimal(10), "10".to_string());
    assert_eq!(u64_to_decimal(1907), "1907".to_string());
    assert_eq!(u64_to_decimal(u64::MAX), "18446744073709551615".to_string());
}

#[test]
fn error_descriptions() {
    assert_eq!(ContractError::Unauthorized.describe(), "unauthorized");
    assert_eq!(ContractError::NotFound.describe(), "not found");
}
