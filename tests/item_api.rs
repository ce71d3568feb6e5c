use std::sync::Arc;

use play_asia::items::{AuthMiddleware, Body, Item, ItemRequest, Reply};
use play_asia::users::UserStore;

/// A fixed moment, in seconds since the Unix epoch.
const NOW: i64 = 1_700_000_000;

fn middleware(path: &str) -> AuthMiddleware {
    AuthMiddleware::new(Arc::new(path.to_string()))
}

fn admin_token() -> String {
    let mut users = UserStore::new(4);
    users.sign_up("admin1".to_string(), "admin1".to_string()).ok().unwrap();
    users.login_at("admin1", "admin1", NOW).ok().unwrap().token
}

fn item(id: u64, name: &str) -> Item {
    Item { id, name: name.to_string() }
}

fn one(reply: &Reply) -> (u64, String) {
    match &reply.body {
        Body::One(item) => (item.id, item.name.clone()),
        _ => panic!("expected one item"),
    }
}

fn listed(reply: &Reply) -> Vec<(u64, String)> {
    match &reply.body {
        Body::Items(items) => items.iter().map(|i| (i.id, i.name.clone())).collect(),
        _ => panic!("expected a list"),
    }
}

#[test]
fn item_api_test_post_item_no_jwt() {
    let mw = middleware("test_post_item_no_jwt.json");
    let items: Vec<Item> = vec![];
    let res = mw.call_at(Some(items), ItemRequest::Create("NewItem".to_string()), None, NOW);
    assert_eq!(res.status, 401);
    assert!(res.store.is_none());
}

#[test]
fn item_api_test_post_item_with_jwt() {
    let mw = middleware("test_post_item_with_jwt.json");
    let token = admin_token();
    let header = format!("Bearer {}", token);
    let items: Vec<Item> = vec![];
    let res = mw.call_at(Some(items), ItemRequest::Create("NewItem".to_string()), Some(&header), NOW);
    assert_eq!(res.status, 201);
    assert_eq!(one(&res), (1, "NewItem".to_string()));
}

#[test]
fn test_post_item_one_item() {
    // Creating needs a token: without one the request is refused and nothing
    // is written.
    let mw = middleware("test_post_item_one_item.json");
    let items: Vec<Item> = vec![];
    let res = mw.call_at(Some(items), ItemRequest::Create("NewItem".to_string()), None, NOW);
    assert_eq!(res.status, 401);
    assert!(res.store.is_none());
    let listing = mw.call_at(Some(vec![]), ItemRequest::List, None, NOW);
    assert_eq!(listing.status, 200);
    assert_eq!(listed(&listing), vec![]);
}

#[test]
fn item_api_test_get_items_no_item() {
    let mw = middleware("test_get_items_no_item.json");
    let items: Vec<Item> = vec![];
    let res = mw.call_at(Some(items), ItemRequest::List, None, NOW);
    assert_eq!(res.status, 200);
    assert_eq!(listed(&res), vec![]);
}

#[test]
fn test_get_items_with_items() {
    let mw = middleware("test_get_items_with_items.json");
    let items: Vec<Item> = vec![item(1, "Item1"), item(2, "Item2")];
    let res = mw.call_at(Some(items), ItemRequest::List, None, NOW);
    assert_eq!(res.status, 200);
    assert_eq!(listed(&res), vec![(1, "Item1".to_string()), (2, "Item2".to_string())]);
}
