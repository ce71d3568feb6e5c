use vstd::prelude::*;
use std::sync::Arc;

use crate::token::{authorized, token_accepted};
use crate::ErrorResponse;

verus! {

/// One entry of the item collection.
pub struct Item {
    pub id: u64,
    pub name: String,
}

/// What an item is, for contracts: its id and the characters of its name.
pub struct ItemView {
    pub id: u64,
    pub name: Seq<char>,
}

impl View for Item {
    type V = ItemView;

    open spec fn view(&self) -> ItemView {
        ItemView { id: self.id, name: self.name@ }
    }
}

/// The collection as a sequence of item views.
pub open spec fn items_view(items: Seq<Item>) -> Seq<ItemView> {
    items.map_values(|i: Item| i@)
}

/// Some item of `s` carries the name `name`.
pub open spec fn has_name(s: Seq<ItemView>, name: Seq<char>) -> bool {
    exists|i: int| 0 <= i < s.len() && #[trigger] s[i].name == name
}

/// Whether an item named `name` is already in the collection.
pub fn contains_item(items: &Vec<Item>, name: &str) -> (r: bool)
    ensures
        r == has_name(items_view(items@), name@),
{
    let target = name.to_owned();
    let mut i: usize = 0;
    while i < items.len()
        invariant
            0 <= i <= items.len(),
            target@ == name@,
            forall|j: int| 0 <= j < i ==> items@[j].name@ != name@,
        decreases items.len() - i,
    {
        if items[i].name == target {
            assert(items_view(items@)[i as int].name == name@);
            return true;
        }
        i = i + 1;
    }
    false
}


/// The largest id in `s`, or 0 when `s` is empty.
pub open spec fn max_id(s: Seq<ItemView>) -> nat
    decreases s.len(),
{
    if s.len() == 0 {
        0
    } else {
        let rest = max_id(s.drop_last());
        if s.last().id as nat > rest {
            s.last().id as nat
        } else {
            rest
        }
    }
}

/// The id that the next created item receives.
pub open spec fn next_id(s: Seq<ItemView>) -> nat {
    max_id(s) + 1
}

/// Some item of `s` carries the id `id`.
pub open spec fn has_id(s: Seq<ItemView>, id: u64) -> bool {
    exists|i: int| 0 <= i < s.len() && #[trigger] s[i].id == id
}

/// `k` is the position of the first item of `s` with id `id`.
pub open spec fn first_with_id(s: Seq<ItemView>, id: u64, k: int) -> bool {
    &&& 0 <= k < s.len()
    &&& s[k].id == id
    &&& forall|j: int| 0 <= j < k ==> #[trigger] s[j].id != id
}

/// Why an operation on the collection was refused.
pub enum ItemError {
    /// An item with the requested name already exists.
    AlreadyExists,
    /// No item carries the requested id.
    NotFound,
    /// The largest id in use is the largest `u64`: no next id exists.
    NoFreeId,
}

/// The result of a rename.
pub enum Update {
    /// The item already had the requested name; the collection is untouched.
    Unchanged(Item),
    /// The item was renamed; the collection changed and has to be saved.
    Renamed(Item),
}

impl Item {
    /// A copy of this item.
    pub fn duplicate(&self) -> (r: Item)
        ensures
            r@ == self@,
    {
        Item { id: self.id, name: self.name.clone() }
    }
}

/// The largest id in the collection, 0 when it is empty.
pub fn max_item_id(items: &Vec<Item>) -> (r: u64)
    ensures
        r as nat == max_id(items_view(items@)),
{
    let ghost s = items_view(items@);
    let mut highest: u64 = 0;
    let mut i: usize = 0;
    while i < items.len()
        invariant
            0 <= i <= items.len(),
            s == items_view(items@),
            highest as nat == max_id(s.take(i as int)),
        decreases items.len() - i,
    {
        assert(s.take(i as int + 1).drop_last() =~= s.take(i as int));
        if items[i].id > highest {
            highest = items[i].id;
        }
        i = i + 1;
    }
    assert(s.take(items.len() as int) =~= s);
    highest
}

/// The id for a new item: one more than the largest id in use, 1 for an empty
/// collection.
pub fn get_new_last_id(items: &Vec<Item>) -> (r: u64)
    requires
        max_id(items_view(items@)) < u64::MAX,
    ensures
        r as nat == next_id(items_view(items@)),
{
    max_item_id(items) + 1
}

/// The position of the first item with id `id`.
pub fn find_item(items: &Vec<Item>, id: u64) -> (r: Option<usize>)
    ensures
        match r {
            Some(k) => first_with_id(items_view(items@), id, k as int),
            None => !has_id(items_view(items@), id),
        },
{
    let ghost s = items_view(items@);
    let mut i: usize = 0;
    while i < items.len()
        invariant
            0 <= i <= items.len(),
            s == items_view(items@),
            forall|j: int| 0 <= j < i ==> #[trigger] s[j].id != id,
        decreases items.len() - i,
    {
        if items[i].id == id {
            return Some(i);
        }
        i = i + 1;
    }
    None
}

/// Adds an item named `name` under the next id, unless the name is taken.
pub fn post_item(items: &mut Vec<Item>, name: String) -> (r: Result<Item, ItemError>)
    ensures
        match r {
            Ok(item) => {
                &&& !has_name(items_view(old(items)@), name@)
                &&& max_id(items_view(old(items)@)) < u64::MAX
                &&& item@ == (ItemView { id: next_id(items_view(old(items)@)) as u64, name: name@ })
                &&& items_view(final(items)@) == items_view(old(items)@).push(item@)
            },
            Err(e) => {
                &&& final(items)@ == old(items)@
                &&& (e is AlreadyExists <==> has_name(items_view(old(items)@), name@))
                &&& (e is NoFreeId <==> !has_name(items_view(old(items)@), name@)
                    && max_id(items_view(old(items)@)) == u64::MAX)
                &&& !(e is NotFound)
            },
        },
{
    if contains_item(items, name.as_str()) {
        return Err(ItemError::AlreadyExists);
    }
    let highest = max_item_id(items);
    if highest == u64::MAX {
        return Err(ItemError::NoFreeId);
    }
    let item = Item { id: highest + 1, name };
    let created = item.duplicate();
    items.push(item);
    assert(items_view(items@) =~= items_view(old(items)@).push(created@));
    Ok(created)
}

/// The first item with id `id`.
pub fn get_item(items: &Vec<Item>, id: u64) -> (r: Result<Item, ItemError>)
    ensures
        match r {
            Ok(item) => exists|k: int|
                first_with_id(items_view(items@), id, k) && item@ == #[trigger] items_view(items@)[k],
            Err(e) => e is NotFound && !has_id(items_view(items@), id),
        },
{
    match find_item(items, id) {
        Some(k) => Ok(items[k].duplicate()),
        None => Err(ItemError::NotFound),
    }
}

/// Gives the first item with id `id` the name `name`.
pub fn put_item(items: &mut Vec<Item>, id: u64, name: String) -> (r: Result<Update, ItemError>)
    ensures
        match r {
            Ok(Update::Unchanged(item)) => {
                &&& exists|k: int|
                    first_with_id(items_view(old(items)@), id, k)
                        && #[trigger] items_view(old(items)@)[k] == item@
                &&& item@.name == name@
                &&& final(items)@ == old(items)@
            },
            Ok(Update::Renamed(item)) => exists|k: int|
                first_with_id(items_view(old(items)@), id, k)
                    && #[trigger] items_view(old(items)@)[k].name != name@
                    && item@ == (ItemView { id, name: name@ })
                    && items_view(final(items)@) == items_view(old(items)@).update(k, item@),
            Err(e) => e is NotFound && !has_id(items_view(old(items)@), id)
                && final(items)@ == old(items)@,
        },
{
    match find_item(items, id) {
        None => Err(ItemError::NotFound),
        Some(k) => {
            if items[k].name == name {
                let current = items[k].duplicate();
                assert(items_view(items@)[k as int] == current@);
                Ok(Update::Unchanged(current))
            } else {
                let renamed = Item { id, name };
                let result = renamed.duplicate();
                items.set(k, renamed);
                assert(items_view(items@) =~= items_view(old(items)@).update(k as int, result@));
                assert(items_view(old(items)@)[k as int].name != result@.name);
                Ok(Update::Renamed(result))
            }
        },
    }
}

/// Removes the first item with id `id`.
pub fn delete_item(items: &mut Vec<Item>, id: u64) -> (r: Result<(), ItemError>)
    ensures
        match r {
            Ok(()) => exists|k: int|
                first_with_id(items_view(old(items)@), id, k)
                    && #[trigger] items_view(final(items)@) == items_view(old(items)@).remove(k),
            Err(e) => e is NotFound && !has_id(items_view(old(items)@), id)
                && final(items)@ == old(items)@,
        },
{
    match find_item(items, id) {
        None => Err(ItemError::NotFound),
        Some(k) => {
            items.remove(k);
            assert(items_view(items@) =~= items_view(old(items)@).remove(k as int));
            Ok(())
        },
    }
}


/// The collection after a successful create of each of `names` in turn,
/// starting from `s`: each create appends an item under the next id.
pub open spec fn after_creates(s: Seq<ItemView>, names: Seq<Seq<char>>) -> Seq<ItemView>
    decreases names.len(),
{
    if names.len() == 0 {
        s
    } else {
        let t = after_creates(s, names.drop_last());
        t.push(ItemView { id: next_id(t) as u64, name: names.last() })
    }
}

proof fn lemma_after_creates_max(s: Seq<ItemView>, names: Seq<Seq<char>>)
    requires
        max_id(s) + names.len() <= u64::MAX,
    ensures
        max_id(after_creates(s, names)) == max_id(s) + names.len(),
        after_creates(s, names).len() == s.len() + names.len(),
        forall|j: int| 0 <= j < s.len() ==> #[trigger] after_creates(s, names)[j] == s[j],
        forall|j: int|
            0 <= j < names.len() ==> #[trigger] after_creates(s, names)[s.len() + j].id
                == max_id(s) + 1 + j,
    decreases names.len(),
{
    if names.len() > 0 {
        let p = names.drop_last();
        lemma_after_creates_max(s, p);
        let t = after_creates(s, p);
        let u = after_creates(s, names);
        assert(u.drop_last() =~= t);
        assert forall|j: int| 0 <= j < names.len() implies #[trigger] u[s.len() + j].id == max_id(s)
            + 1 + j by {
            if j < p.len() {
                assert(u[s.len() + j] == t[s.len() + j]);
            }
        }
    }
}

/// Ids of successive creates: starting from any collection, the items that a
/// run of successful creates appends carry the ids `next_id(s)`,
/// `next_id(s) + 1`, ... in order, so they strictly increase; on an empty
/// collection the first one is 1.
pub proof fn lemma_create_ids_increase(s: Seq<ItemView>, names: Seq<Seq<char>>)
    requires
        max_id(s) + names.len() <= u64::MAX,
    ensures
        after_creates(s, names).len() == s.len() + names.len(),
        forall|j: int|
            0 <= j < names.len() ==> #[trigger] after_creates(s, names)[s.len() + j].id
                == next_id(s) + j,
        forall|i: int, j: int|
            0 <= i < j < names.len() ==> #[trigger] after_creates(s, names)[s.len() + i].id
                < #[trigger] after_creates(s, names)[s.len() + j].id,
        s.len() == 0 && names.len() > 0 ==> after_creates(s, names)[0].id == 1,
{
    lemma_after_creates_max(s, names);
    let u = after_creates(s, names);
    assert forall|i: int, j: int| 0 <= i < j < names.len() implies #[trigger] u[s.len() + i].id
        < #[trigger] u[s.len() + j].id by {
        assert(u[s.len() + i].id == max_id(s) + 1 + i);
        assert(u[s.len() + j].id == max_id(s) + 1 + j);
    }
    if s.len() == 0 && names.len() > 0 {
        assert(u[s.len() + 0int].id == max_id(s) + 1);
    }
}

/// HTTP status codes of the replies.
pub const OK: u16 = 200;
pub const CREATED: u16 = 201;
pub const BAD_REQUEST: u16 = 400;
pub const UNAUTHORIZED: u16 = 401;
pub const NOT_FOUND: u16 = 404;
pub const CONFLICT: u16 = 409;
pub const INTERNAL_SERVER_ERROR: u16 = 500;

/// Texts of the reply bodies.
pub const SERVER_ERROR: &'static str = "Server error";
pub const CONTACT_SUPPORT: &'static str = "Please contact support";
pub const DUPLICATE: &'static str = "Duplicate item";
pub const ALREADY_EXISTS: &'static str = "Item already exists";
pub const MISSING: &'static str = "Not found";
pub const DOES_NOT_EXIST: &'static str = "Item does not exist";
pub const UNKNOWN_ID: &'static str = "Bad request";
pub const DOESNT_EXIST: &'static str = "Item doesn't exist";
pub const NOT_AUTHORIZED: &'static str = "Unauthorized";
pub const TOKEN_REQUIRED: &'static str = "A valid bearer token is required";
pub const DELETED: &'static str = "Item deleted successfully";

/// A request on the item routes, with what its path and body carry.
pub enum ItemRequest {
    /// `GET /items`
    List,
    /// `GET /items/:id`
    Get(u64),
    /// `POST /items` with `{name}`
    Create(String),
    /// `PUT /items/:id` with `{name}`
    Rename(u64, String),
    /// `DELETE /items/:id`
    Delete(u64),
}

impl ItemRequest {
    /// Reads are answered without a token.
    pub open spec fn is_read_spec(&self) -> bool {
        self is List || self is Get
    }

    /// Whether the request only reads the collection.
    #[verifier::when_used_as_spec(is_read_spec)]
    pub fn is_read(&self) -> (r: bool)
        ensures
            r == self.is_read_spec(),
    {
        match self {
            ItemRequest::List => true,
            ItemRequest::Get(_) => true,
            _ => false,
        }
    }
}

/// The JSON body of a reply.
pub enum Body {
    Items(Vec<Item>),
    One(Item),
    Message(String),
    Failure(ErrorResponse),
}

/// What the service answers: a status, a body, and the whole collection to
/// write back to the file when the request changed it.
pub struct Reply {
    pub status: u16,
    pub body: Body,
    pub store: Option<Vec<Item>>,
}

/// `b` is an error body with the two texts.
pub open spec fn failure(b: Body, error: Seq<char>, msg: Seq<char>) -> bool {
    b matches Body::Failure(e) && e.error@ == error && e.msg@ == msg
}

/// `b` carries one item, whose view is `v`.
pub open spec fn one(b: Body, v: ItemView) -> bool {
    b matches Body::One(item) && item@ == v
}

/// `store` holds a collection whose view is `s`.
pub open spec fn stores(store: Option<Vec<Item>>, s: Seq<ItemView>) -> bool {
    store matches Some(v) && items_view(v@) == s
}

/// `r` is the reply to `request` on a collection whose view is `s`.
pub open spec fn handled(s: Seq<ItemView>, request: ItemRequest, r: Reply) -> bool {
    match request {
        ItemRequest::List => {
            &&& r.status == OK
            &&& r.store is None
            &&& (r.body matches Body::Items(v) && items_view(v@) == s)
        },
        ItemRequest::Get(id) => {
            &&& r.store is None
            &&& if has_id(s, id) {
                &&& r.status == OK
                &&& exists|k: int| first_with_id(s, id, k) && one(r.body, #[trigger] s[k])
            } else {
                r.status == NOT_FOUND && failure(r.body, MISSING@, DOES_NOT_EXIST@)
            }
        },
        ItemRequest::Create(name) => {
            if has_name(s, name@) {
                &&& r.status == CONFLICT
                &&& r.store is None
                &&& failure(r.body, DUPLICATE@, ALREADY_EXISTS@)
            } else if max_id(s) == u64::MAX {
                &&& r.status == INTERNAL_SERVER_ERROR
                &&& r.store is None
                &&& failure(r.body, SERVER_ERROR@, CONTACT_SUPPORT@)
            } else {
                let created = ItemView { id: next_id(s) as u64, name: name@ };
                &&& r.status == CREATED
                &&& one(r.body, created)
                &&& stores(r.store, s.push(created))
            }
        },
        ItemRequest::Rename(id, name) => {
            if has_id(s, id) {
                &&& r.status == OK
                &&& forall|k: int| #[trigger]
                    first_with_id(s, id, k) ==> if s[k].name == name@ {
                        r.store is None && one(r.body, s[k])
                    } else {
                        let renamed = ItemView { id, name: name@ };
                        one(r.body, renamed) && stores(r.store, s.update(k, renamed))
                    }
            } else {
                &&& r.status == BAD_REQUEST
                &&& r.store is None
                &&& failure(r.body, UNKNOWN_ID@, DOESNT_EXIST@)
            }
        },
        ItemRequest::Delete(id) => {
            if has_id(s, id) {
                &&& r.status == OK
                &&& (r.body matches Body::Message(m) && m@ == DELETED@)
                &&& forall|k: int| #[trigger] first_with_id(s, id, k) ==> stores(r.store, s.remove(k))
            } else {
                &&& r.status == BAD_REQUEST
                &&& r.store is None
                &&& failure(r.body, UNKNOWN_ID@, DOESNT_EXIST@)
            }
        },
    }
}

/// Only one position is the first with a given id.
pub proof fn lemma_first_with_id_unique(s: Seq<ItemView>, id: u64, a: int, b: int)
    requires
        first_with_id(s, id, a),
        first_with_id(s, id, b),
    ensures
        a == b,
{
    if a < b {
        assert(s[a].id != id);
    } else if b < a {
        assert(s[b].id != id);
    }
}

/// A reply that reports an error, with no write.
fn refusal(status: u16, error: &str, msg: &str) -> (r: Reply)
    ensures
        r.status == status,
        r.store is None,
        failure(r.body, error@, msg@),
{
    Reply { status, body: Body::Failure(ErrorResponse::new(error, msg)), store: None }
}

/// Answers a request on the collection `items`, which the caller loaded from
/// the backing file; `store` in the reply is what to write back.
pub fn handle(items: Vec<Item>, request: ItemRequest) -> (r: Reply)
    ensures
        handled(items_view(items@), request, r),
{
    let ghost s = items_view(items@);
    let mut items = items;
    match request {
        ItemRequest::List => Reply { status: OK, body: Body::Items(items), store: None },
        ItemRequest::Get(id) => match get_item(&items, id) {
            Ok(item) => Reply { status: OK, body: Body::One(item), store: None },
            Err(_) => refusal(NOT_FOUND, MISSING, DOES_NOT_EXIST),
        },
        ItemRequest::Create(name) => match post_item(&mut items, name) {
            Ok(item) => Reply { status: CREATED, body: Body::One(item), store: Some(items) },
            Err(ItemError::AlreadyExists) => refusal(CONFLICT, DUPLICATE, ALREADY_EXISTS),
            Err(_) => refusal(INTERNAL_SERVER_ERROR, SERVER_ERROR, CONTACT_SUPPORT),
        },
        ItemRequest::Rename(id, name) => {
            let ghost new_name = name@;
            match put_item(&mut items, id, name) {
                Ok(Update::Unchanged(item)) => {
                    proof {
                        assert forall|k: int| #[trigger] first_with_id(s, id, k) implies s[k]
                            == item@ by {
                            let w = choose|w: int| first_with_id(s, id, w) && s[w] == item@;
                            lemma_first_with_id_unique(s, id, k, w);
                        }
                    }
                    Reply { status: OK, body: Body::One(item), store: None }
                },
                Ok(Update::Renamed(item)) => {
                    proof {
                        let w = choose|w: int|
                            first_with_id(s, id, w) && #[trigger] s[w].name != new_name
                                && item@ == (ItemView { id, name: new_name })
                                && items_view(items@) == s.update(w, item@);
                        assert forall|k: int| #[trigger] first_with_id(s, id, k) implies k == w by {
                            lemma_first_with_id_unique(s, id, k, w);
                        }
                    }
                    Reply { status: OK, body: Body::One(item), store: Some(items) }
                },
                Err(_) => refusal(BAD_REQUEST, UNKNOWN_ID, DOESNT_EXIST),
            }
        },
        ItemRequest::Delete(id) => match delete_item(&mut items, id) {
            Ok(()) => {
                proof {
                    let w = choose|w: int|
                        first_with_id(s, id, w) && #[trigger] items_view(items@) == s.remove(w);
                    assert forall|k: int| #[trigger] first_with_id(s, id, k) implies k == w by {
                        lemma_first_with_id_unique(s, id, k, w);
                    }
                }
                Reply {
                    status: OK,
                    body: Body::Message(DELETED.to_owned()),
                    store: Some(items),
                }
            },
            Err(_) => refusal(BAD_REQUEST, UNKNOWN_ID, DOESNT_EXIST),
        },
    }
}

/// The authentication layer in front of the item routes, bound to the file that backs the
/// collection.
pub struct AuthMiddleware {
    pub data_path: Arc<String>,
}

impl AuthMiddleware {
    pub fn new(data_path: Arc<String>) -> (r: Self)
        ensures
            r.data_path == data_path,
    {
        Self { data_path }
    }

    /// Answers a request at time `now`. `loaded` is the collection read from the
    /// backing file, `None` where creating, reading or parsing it failed;
    /// `authorization` is the `Authorization` header, if any. Reads pass without
    /// a token; every other request needs a bearer token that is accepted at
    /// `now`, and is refused without touching the collection otherwise.
    pub fn call_at(
        &self,
        loaded: Option<Vec<Item>>,
        request: ItemRequest,
        authorization: Option<&str>,
        now: i64,
    ) -> (r: Reply)
        ensures
            match loaded {
                None => {
                    &&& r.status == INTERNAL_SERVER_ERROR
                    &&& r.store is None
                    &&& failure(r.body, SERVER_ERROR@, CONTACT_SUPPORT@)
                },
                Some(items) => if request.is_read_spec() || token_accepted(
                    match authorization {
                        Some(h) => Some(h@),
                        None => None,
                    },
                    now,
                ) {
                    handled(items_view(items@), request, r)
                } else {
                    &&& r.status == UNAUTHORIZED
                    &&& r.store is None
                    &&& failure(r.body, NOT_AUTHORIZED@, TOKEN_REQUIRED@)
                },
            },
    {
        match loaded {
            None => refusal(INTERNAL_SERVER_ERROR, SERVER_ERROR, CONTACT_SUPPORT),
            Some(items) => {
                if request.is_read() || authorized(authorization, now) {
                    handle(items, request)
                } else {
                    refusal(UNAUTHORIZED, NOT_AUTHORIZED, TOKEN_REQUIRED)
                }
            },
        }
    }
}

} // verus!
