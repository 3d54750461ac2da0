use filite::config::Config;
use filite::pool::ConnPool;
use filite::router::{handle, route, serve_request, status_of, Method, Reply, Target};
use filite::store::ResourceStore;
use filite::Kind;

fn bytes(s: &str) -> Vec<u8> {
    s.as_bytes().to_vec()
}

fn test_config() -> Config {
    Config {
        database_url: bytes("test.db"),
        port: 8080,
        pool_size: 4,
        max_filesize: 100,
    }
}

#[test]
fn routes_match_the_table() {
    assert!(matches!(route(&bytes("/config")), Target::ConfigTarget));
    assert!(matches!(route(&bytes("/f")), Target::ListTarget(Kind::File)));
    assert!(matches!(route(&bytes("/l")), Target::ListTarget(Kind::Link)));
    assert!(matches!(route(&bytes("/t")), Target::ListTarget(Kind::Text)));
    match route(&bytes("/f/abc")) {
        Target::ItemTarget(kind, id) => {
            assert_eq!(kind, Kind::File);
            assert_eq!(id, bytes("abc"));
        }
        _ => panic!("item path must route to its record"),
    }
    assert!(matches!(route(&bytes("/x")), Target::UnknownTarget));
    assert!(matches!(route(&bytes("/f/")), Target::UnknownTarget));
    assert!(matches!(route(&bytes("/f/a/b")), Target::UnknownTarget));
    assert!(matches!(route(&bytes("")), Target::UnknownTarget));
    assert!(matches!(route(&bytes("/conf")), Target::UnknownTarget));
}

#[test]
fn get_config_returns_the_active_configuration() {
    let mut store = ResourceStore::new();
    let cfg = test_config();
    let r = handle(&mut store, &cfg, Method::Get, &bytes("/config"), 0, None);
    match &r {
        Reply::ConfigReply(c) => {
            assert_eq!(c.port, 8080);
            assert_eq!(c.pool_size, 4);
            assert_eq!(c.max_filesize, 100);
            assert_eq!(c.database_url, bytes("test.db"));
        }
        _ => panic!("GET /config must return the configuration"),
    }
    assert_eq!(status_of(&r), 200);
}

#[test]
fn put_then_get_round_trips_over_http() {
    let mut store = ResourceStore::new();
    let cfg = test_config();
    let put = handle(
        &mut store,
        &cfg,
        Method::Put,
        &bytes("/t/note"),
        20,
        Some(bytes("the payload")),
    );
    assert!(matches!(put, Reply::CreatedReply));
    assert_eq!(status_of(&put), 201);
    let got = handle(&mut store, &cfg, Method::Get, &bytes("/t/note"), 0, None);
    match &got {
        Reply::PayloadReply(p) => assert_eq!(p, &bytes("the payload")),
        _ => panic!("a stored record must be retrievable"),
    }
    assert_eq!(status_of(&got), 200);
}

#[test]
fn second_put_replaces_and_reports_200() {
    let mut store = ResourceStore::new();
    let cfg = test_config();
    handle(&mut store, &cfg, Method::Put, &bytes("/l/x"), 5, Some(bytes("one")));
    let second = handle(&mut store, &cfg, Method::Put, &bytes("/l/x"), 5, Some(bytes("two")));
    assert!(matches!(second, Reply::ReplacedReply));
    assert_eq!(status_of(&second), 200);
    let got = handle(&mut store, &cfg, Method::Get, &bytes("/l/x"), 0, None);
    match &got {
        Reply::PayloadReply(p) => assert_eq!(p, &bytes("two")),
        _ => panic!("replace must keep the second payload"),
    }
}

#[test]
fn oversized_file_put_is_413_and_never_stored() {
    let mut store = ResourceStore::new();
    let cfg = test_config();
    // Nominal limit 100, inflated wire cutoff 137.
    let r = handle(
        &mut store,
        &cfg,
        Method::Put,
        &bytes("/f/big"),
        138,
        Some(vec![0u8; 138]),
    );
    assert!(matches!(r, Reply::TooLargeReply));
    assert_eq!(status_of(&r), 413);
    let got = handle(&mut store, &cfg, Method::Get, &bytes("/f/big"), 0, None);
    assert!(matches!(got, Reply::NotFoundReply));
    assert_eq!(status_of(&got), 404);
}

#[test]
fn file_put_at_the_cutoff_is_accepted() {
    let mut store = ResourceStore::new();
    let cfg = test_config();
    let r = handle(
        &mut store,
        &cfg,
        Method::Put,
        &bytes("/f/ok"),
        137,
        Some(vec![7u8; 137]),
    );
    assert!(matches!(r, Reply::CreatedReply));
}

#[test]
fn size_cutoff_applies_to_files_only() {
    let mut store = ResourceStore::new();
    let cfg = test_config();
    let r = handle(
        &mut store,
        &cfg,
        Method::Put,
        &bytes("/t/long"),
        100000,
        Some(bytes("short decoded payload")),
    );
    assert!(matches!(r, Reply::CreatedReply));
}

#[test]
fn malformed_payload_is_400() {
    let mut store = ResourceStore::new();
    let cfg = test_config();
    let r = handle(&mut store, &cfg, Method::Put, &bytes("/t/bad"), 10, None);
    assert!(matches!(r, Reply::MalformedReply));
    assert_eq!(status_of(&r), 400);
    let got = handle(&mut store, &cfg, Method::Get, &bytes("/t/bad"), 0, None);
    assert!(matches!(got, Reply::NotFoundReply));
}

#[test]
fn delete_then_get_is_404() {
    let mut store = ResourceStore::new();
    let cfg = test_config();
    handle(&mut store, &cfg, Method::Put, &bytes("/f/doc"), 5, Some(bytes("abc")));
    let del = handle(&mut store, &cfg, Method::Delete, &bytes("/f/doc"), 0, None);
    assert!(matches!(del, Reply::DeletedReply));
    assert_eq!(status_of(&del), 200);
    let got = handle(&mut store, &cfg, Method::Get, &bytes("/f/doc"), 0, None);
    assert!(matches!(got, Reply::NotFoundReply));
}

#[test]
fn delete_missing_is_404() {
    let mut store = ResourceStore::new();
    let cfg = test_config();
    let del = handle(&mut store, &cfg, Method::Delete, &bytes("/l/ghost"), 0, None);
    assert!(matches!(del, Reply::NotFoundReply));
    assert_eq!(status_of(&del), 404);
}

#[test]
fn listing_returns_each_identifier_once() {
    let mut store = ResourceStore::new();
    let cfg = test_config();
    handle(&mut store, &cfg, Method::Put, &bytes("/t/a"), 3, Some(bytes("1")));
    handle(&mut store, &cfg, Method::Put, &bytes("/t/b"), 3, Some(bytes("2")));
    handle(&mut store, &cfg, Method::Put, &bytes("/t/a"), 3, Some(bytes("3")));
    let r = handle(&mut store, &cfg, Method::Get, &bytes("/t"), 0, None);
    match &r {
        Reply::ListReply(ids) => {
            assert_eq!(ids.len(), 2);
            assert!(ids.contains(&bytes("a")));
            assert!(ids.contains(&bytes("b")));
        }
        _ => panic!("GET on a kind must list its records"),
    }
}

#[test]
fn serve_request_returns_the_connection_every_time() {
    let mut pool = ConnPool::create(1);
    let mut store = ResourceStore::new();
    let cfg = test_config();
    let first = serve_request(
        &mut pool,
        &mut store,
        &cfg,
        Method::Put,
        &bytes("/t/a"),
        1,
        Some(bytes("x")),
    );
    assert!(matches!(first, Some(Reply::CreatedReply)));
    // The single connection came back, so the next request gets it again.
    let second = serve_request(&mut pool, &mut store, &cfg, Method::Get, &bytes("/t/a"), 0, None);
    match second {
        Some(Reply::PayloadReply(p)) => assert_eq!(p, bytes("x")),
        _ => panic!("the connection must return to the pool after a request"),
    }
}

#[test]
fn exhausted_pool_defers_the_request() {
    let mut pool = ConnPool::create(1);
    let mut store = ResourceStore::new();
    let cfg = test_config();
    let slot = pool.acquire().expect("the one slot");
    let r = serve_request(
        &mut pool,
        &mut store,
        &cfg,
        Method::Put,
        &bytes("/t/a"),
        1,
        Some(bytes("x")),
    );
    assert!(r.is_none());
    assert_eq!(store.get_one(Kind::Text, &bytes("a")), None);
    pool.release(slot);
    let retry = serve_request(
        &mut pool,
        &mut store,
        &cfg,
        Method::Put,
        &bytes("/t/a"),
        1,
        Some(bytes("x")),
    );
    assert!(matches!(retry, Some(Reply::CreatedReply)));
}

#[test]
fn unknown_route_is_404() {
    let mut store = ResourceStore::new();
    let cfg = test_config();
    let r = handle(&mut store, &cfg, Method::Get, &bytes("/nope"), 0, None);
    assert!(matches!(r, Reply::NotFoundReply));
    let w = handle(&mut store, &cfg, Method::Put, &bytes("/config"), 0, Some(bytes("x")));
    assert!(matches!(w, Reply::NotFoundReply));
}
