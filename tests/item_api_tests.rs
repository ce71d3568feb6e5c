use std::sync::Arc;

use play_asia::items::{AuthMiddleware, Body, Item, ItemRequest, Reply};
use play_asia::users::UserStore;

/// A fixed moment, in seconds since the Unix epoch.
const NOW: i64 = 1_700_000_000;

fn middleware(path: &str) -> AuthMiddleware {
    AuthMiddleware::new(Arc::new(path.to_string()))
}

fn bearer() -> String {
    let mut users = UserStore::new(4);
    users.sign_up("admin1".to_string(), "admin1".to_string()).ok().unwrap();
    let token = users.login_at("admin1", "admin1", NOW).ok().unwrap().token;
    format!("Bearer {}", token)
}

fn item(id: u64, name: &str) -> Item {
    Item { id, name: name.to_string() }
}

fn pairs(items: &[Item]) -> Vec<(u64, String)> {
    items.iter().map(|i| (i.id, i.name.clone())).collect()
}

fn one(reply: &Reply) -> (u64, String) {
    match &reply.body {
        Body::One(item) => (item.id, item.name.clone()),
        _ => panic!("expected one item"),
    }
}

#[test]
fn item_api_tests_test_post_item_no_jwt() {
    let mw = middleware("test_post_item_no_jwt.json");
    let res = mw.call_at(Some(vec![]), ItemRequest::Create("NewItem".to_string()), None, NOW);
    assert_eq!(res.status, 401);
    assert!(res.store.is_none());
}

#[test]
fn item_api_tests_test_post_item_with_jwt() {
    let mw = middleware("test_post_item_with_jwt.json");
    let header = bearer();
    let res = mw.call_at(Some(vec![]), ItemRequest::Create("NewItem".to_string()), Some(&header), NOW);
    assert_eq!(res.status, 201);
    assert_eq!(one(&res), (1, "NewItem".to_string()));
    assert_eq!(pairs(&res.store.unwrap()), vec![(1, "NewItem".to_string())]);
}

#[test]
fn test_post_item_three_items_with_data_persistence() {
    let mw = middleware("test_post_item_three_items_with_data_persistence.json");
    let header = bearer();
    let mut file: Vec<Item> = vec![];
    let names = ["NewItem1", "NewItem2", "NewItem3"];
    for (k, name) in names.iter().enumerate() {
        let res = mw.call_at(Some(file), ItemRequest::Create(name.to_string()), Some(&header), NOW);
        assert_eq!(res.status, 201);
        assert_eq!(one(&res), (k as u64 + 1, name.to_string()));
        file = res.store.unwrap();
    }
    let stored = pairs(&file);
    for expected in [(1, "NewItem1"), (2, "NewItem2"), (3, "NewItem3")] {
        assert!(stored.contains(&(expected.0, expected.1.to_string())));
    }
}

#[test]
fn item_api_tests_test_get_items_no_item() {
    let mw = middleware("test_get_items_no_item.json");
    let res = mw.call_at(Some(vec![]), ItemRequest::List, None, NOW);
    assert_eq!(res.status, 200);
    match res.body {
        Body::Items(items) => assert!(items.is_empty()),
        _ => panic!("expected a list"),
    }
}

#[test]
fn test_get_items_by_id() {
    let mw = middleware("test_get_items_by_id.json");
    let items = vec![item(1, "Item1"), item(2, "Item2")];
    let res = mw.call_at(Some(items), ItemRequest::Get(1), None, NOW);
    assert_eq!(res.status, 200);
    assert_eq!(one(&res), (1, "Item1".to_string()));
}

#[test]
fn test_get_items_all() {
    let mw = middleware("test_get_items_all.json");
    let items = vec![item(1, "Item1"), item(2, "Item2")];
    let res = mw.call_at(Some(items), ItemRequest::List, None, NOW);
    assert_eq!(res.status, 200);
    match res.body {
        Body::Items(listed) => {
            assert_eq!(pairs(&listed), vec![(1, "Item1".to_string()), (2, "Item2".to_string())])
        }
        _ => panic!("expected a list"),
    }
}

#[test]
fn test_put_item_no_jwt() {
    let mw = middleware("test_put_item_no_jwt.json");
    let items = vec![item(1, "PutItem1")];
    let res = mw.call_at(Some(items), ItemRequest::Rename(1, "NewPutItemName1".to_string()), None, NOW);
    assert_eq!(res.status, 401);
    assert!(res.store.is_none());
}

#[test]
fn test_put_item_with_jwt_by_id() {
    let mw = middleware("test_put_item_with_jwt_by_id.json");
    let header = bearer();
    let items = vec![item(1, "PutItem1")];
    let res = mw.call_at(
        Some(items),
        ItemRequest::Rename(1, "NewPutItemName1".to_string()),
        Some(&header), NOW,
    );
    assert_eq!(res.status, 200);
    assert_eq!(one(&res), (1, "NewPutItemName1".to_string()));
    assert_eq!(pairs(&res.store.unwrap()), vec![(1, "NewPutItemName1".to_string())]);
}
