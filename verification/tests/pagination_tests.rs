use cosmunity::contract::execute;
use cosmunity::contract::instantiate;
use cosmunity::contract::query_group_list;
use cosmunity::msg::ExecuteMsg;
use cosmunity::state::Store;

fn filled_store(count: u64) -> Store {
    let mut deps = Store::new();
    instantiate(&mut deps, "creator".to_string(), None).unwrap();
    let mut k: u64 = 0;
    while k < count {
        let msg = ExecuteMsg::CreateGroup {
            group_name: format!("group {}", k + 1),
            token_amount: (k as u128) + 100,
        };
        execute(&mut deps, "creator".to_string(), msg).unwrap();
        k += 1;
    }
    deps
}

#[test]
fn list_returns_all_in_ascending_order() {
    let deps = filled_store(7);
    let res = query_group_list(&deps, None, None).unwrap();
    assert_eq!(7, res.groups.len());
    for (i, g) in res.groups.iter().enumerate() {
        assert_eq!(g.id, (i as u64) + 1);
        assert_eq!(g.group_name, format!("group {}", i + 1));
        assert_eq!(g.token_amount, (i as u128) + 100);
    }
}

#[test]
fn list_without_limit_is_capped_at_ten() {
    let deps = filled_store(12);
    let res = query_group_list(&deps, None, None).unwrap();
    assert_eq!(10, res.groups.len());
    for (i, g) in res.groups.iter().enumerate() {
        assert_eq!(g.id, (i as u64) + 1);
    }
}

#[test]
fn list_limit_is_capped_at_thirty() {
    let deps = filled_store(35);
    let res = query_group_list(&deps, None, Some(100)).unwrap();
    assert_eq!(30, res.groups.len());
    assert_eq!(res.groups[0].id, 1);
    assert_eq!(res.groups[29].id, 30);
}

#[test]
fn list_honours_small_limit() {
    let deps = filled_store(5);
    let res = query_group_list(&deps, None, Some(2)).unwrap();
    assert_eq!(2, res.groups.len());
    assert_eq!(res.groups[0].id, 1);
    assert_eq!(res.groups[1].id, 2);
}

#[test]
fn list_starts_strictly_after_cursor() {
    let deps = filled_store(12);
    let res = query_group_list(&deps, Some(5), None).unwrap();
    assert_eq!(7, res.groups.len());
    for (i, g) in res.groups.iter().enumerate() {
        assert_eq!(g.id, (i as u64) + 6);
    }

    let res = query_group_list(&deps, Some(5), Some(3)).unwrap();
    assert_eq!(3, res.groups.len());
    assert_eq!(res.groups[0].id, 6);
    assert_eq!(res.groups[2].id, 8);
}

#[test]
fn list_past_the_last_id_is_empty() {
    let deps = filled_store(4);
    let res = query_group_list(&deps, Some(4), None).unwrap();
    assert!(res.groups.is_empty());
    let res = query_group_list(&deps, Some(999), None).unwrap();
    assert!(res.groups.is_empty());
}
