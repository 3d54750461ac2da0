use filite::pool::ConnPool;
use filite::store::ResourceStore;
use filite::Kind;

fn bytes(s: &str) -> Vec<u8> {
    s.as_bytes().to_vec()
}

#[test]
fn put_then_get_returns_payload() {
    let mut store = ResourceStore::new();
    store.put(Kind::Text, bytes("a"), bytes("hello"));
    assert_eq!(store.get_one(Kind::Text, &bytes("a")), Some(bytes("hello")));
}

#[test]
fn put_replaces_not_appends() {
    let mut store = ResourceStore::new();
    let created = store.put(Kind::Link, bytes("a"), bytes("first"));
    assert!(created);
    let created_again = store.put(Kind::Link, bytes("a"), bytes("second"));
    assert!(!created_again);
    assert_eq!(store.get_one(Kind::Link, &bytes("a")), Some(bytes("second")));
    assert_eq!(store.list(Kind::Link).len(), 1);
}

#[test]
fn delete_then_get_is_not_found() {
    let mut store = ResourceStore::new();
    store.put(Kind::File, bytes("doc"), bytes("contents"));
    assert!(store.delete(Kind::File, &bytes("doc")));
    assert_eq!(store.get_one(Kind::File, &bytes("doc")), None);
}

#[test]
fn get_never_written_is_not_found() {
    let store = ResourceStore::new();
    assert_eq!(store.get_one(Kind::File, &bytes("nope")), None);
}

#[test]
fn delete_missing_reports_not_found() {
    let mut store = ResourceStore::new();
    assert!(!store.delete(Kind::Text, &bytes("nope")));
}

#[test]
fn kinds_do_not_share_identifiers() {
    let mut store = ResourceStore::new();
    store.put(Kind::File, bytes("x"), bytes("file-payload"));
    store.put(Kind::Link, bytes("x"), bytes("link-payload"));
    assert_eq!(store.get_one(Kind::File, &bytes("x")), Some(bytes("file-payload")));
    assert_eq!(store.get_one(Kind::Link, &bytes("x")), Some(bytes("link-payload")));
    assert_eq!(store.get_one(Kind::Text, &bytes("x")), None);
}

#[test]
fn distinct_identifiers_are_independent() {
    let mut store = ResourceStore::new();
    store.put(Kind::Text, bytes("a"), bytes("pa"));
    store.put(Kind::Text, bytes("b"), bytes("pb"));
    assert_eq!(store.get_one(Kind::Text, &bytes("a")), Some(bytes("pa")));
    assert_eq!(store.get_one(Kind::Text, &bytes("b")), Some(bytes("pb")));
    let ids = store.list(Kind::Text);
    assert_eq!(ids.len(), 2);
    assert!(ids.contains(&bytes("a")));
    assert!(ids.contains(&bytes("b")));
}

#[test]
fn list_is_per_kind() {
    let mut store = ResourceStore::new();
    store.put(Kind::File, bytes("f1"), bytes("x"));
    store.put(Kind::Text, bytes("t1"), bytes("y"));
    let files = store.list(Kind::File);
    assert_eq!(files, vec![bytes("f1")]);
    assert_eq!(store.list(Kind::Link), Vec::<Vec<u8>>::new());
}

#[test]
fn pool_hands_out_each_slot_once() {
    let mut pool = ConnPool::create(2);
    let a = pool.acquire().expect("first slot");
    let b = pool.acquire().expect("second slot");
    assert_ne!(a, b);
    assert_eq!(pool.acquire(), None);
}

#[test]
fn pool_release_makes_slot_available_again() {
    let mut pool = ConnPool::create(1);
    let a = pool.acquire().expect("slot");
    assert_eq!(pool.acquire(), None);
    pool.release(a);
    assert_eq!(pool.acquire(), Some(a));
}

#[test]
fn empty_pool_has_nothing_to_acquire() {
    let mut pool = ConnPool::create(0);
    assert_eq!(pool.acquire(), None);
}
