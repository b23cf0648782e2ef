use kvstore::DataManager;
use kvstore::HandlerError;
use kvstore::Method;
use kvstore::error_response;
use kvstore::handle_get;
use kvstore::handle_put;
use kvstore::handle_request;
use kvstore::message_of;
use kvstore::parse_key;
use kvstore::status_of;

#[test]
fn get_of_never_written_key_is_404() {
    let mut store = DataManager::new();
    let r = handle_request(&mut store, Method::Get, &b"/data/ghost".to_vec(), Vec::new());
    assert_eq!(r.status, 404);
    assert_eq!(r.body, b"not found".to_vec());
}

#[test]
fn put_then_get_round_trip() {
    let mut store = DataManager::new();
    let r = handle_request(
        &mut store,
        Method::Put,
        &b"/data/alice".to_vec(),
        b"hello".to_vec(),
    );
    assert_eq!(r.status, 200);
    assert_eq!(r.body, b"hello".to_vec());
    let r = handle_request(&mut store, Method::Get, &b"/data/alice".to_vec(), Vec::new());
    assert_eq!(r.status, 200);
    assert_eq!(r.body, b"hello".to_vec());
}

#[test]
fn put_overwrites_previous_value() {
    let mut store = DataManager::new();
    handle_request(&mut store, Method::Put, &b"/data/k".to_vec(), b"v1".to_vec());
    handle_request(&mut store, Method::Put, &b"/data/k".to_vec(), b"v2".to_vec());
    let r = handle_request(&mut store, Method::Get, &b"/data/k".to_vec(), Vec::new());
    assert_eq!(r.status, 200);
    assert_eq!(r.body, b"v2".to_vec());
}

#[test]
fn repeated_put_leaves_same_state() {
    let mut store = DataManager::new();
    for _ in 0..3 {
        let r = handle_request(&mut store, Method::Put, &b"/data/k".to_vec(), b"v".to_vec());
        assert_eq!(r.status, 200);
        assert_eq!(r.body, b"v".to_vec());
    }
    let r = handle_request(&mut store, Method::Get, &b"/data/k".to_vec(), Vec::new());
    assert_eq!(r.status, 200);
    assert_eq!(r.body, b"v".to_vec());
}

#[test]
fn interleaved_puts_return_one_written_value() {
    let values: Vec<&[u8]> = vec![b"v1", b"v2", b"v3"];
    let mut store = DataManager::new();
    for v in &values {
        handle_request(&mut store, Method::Put, &b"/data/k".to_vec(), v.to_vec());
    }
    let r = handle_request(&mut store, Method::Get, &b"/data/k".to_vec(), Vec::new());
    assert_eq!(r.status, 200);
    assert!(values.iter().any(|v| r.body == v.to_vec()));
    assert_eq!(r.body, b"v3".to_vec());
}

#[test]
fn invalid_utf8_put_is_400_and_preserves_value() {
    let mut store = DataManager::new();
    handle_request(&mut store, Method::Put, &b"/data/k".to_vec(), b"old".to_vec());
    let r = handle_request(
        &mut store,
        Method::Put,
        &b"/data/k".to_vec(),
        vec![0xFF, 0xFE, 0x61],
    );
    assert_eq!(r.status, 400);
    assert_eq!(r.body, b"bad encoding".to_vec());
    let r = handle_request(&mut store, Method::Get, &b"/data/k".to_vec(), Vec::new());
    assert_eq!(r.status, 200);
    assert_eq!(r.body, b"old".to_vec());
}

#[test]
fn invalid_utf8_put_on_fresh_key_stores_nothing() {
    let mut store = DataManager::new();
    let r = handle_request(&mut store, Method::Put, &b"/data/k".to_vec(), vec![0x80]);
    assert_eq!(r.status, 400);
    let r = handle_request(&mut store, Method::Get, &b"/data/k".to_vec(), Vec::new());
    assert_eq!(r.status, 404);
}

#[test]
fn scenario_alice_then_bob() {
    let mut store = DataManager::new();
    let r = handle_request(
        &mut store,
        Method::Put,
        &b"/data/alice".to_vec(),
        b"hello".to_vec(),
    );
    assert_eq!(r.status, 200);
    assert_eq!(r.body, b"hello".to_vec());
    let r = handle_request(&mut store, Method::Get, &b"/data/alice".to_vec(), Vec::new());
    assert_eq!(r.status, 200);
    assert_eq!(r.body, b"hello".to_vec());
    let r = handle_request(&mut store, Method::Get, &b"/data/bob".to_vec(), Vec::new());
    assert_eq!(r.status, 404);
}

#[test]
fn paths_outside_the_data_route_are_404() {
    let mut store = DataManager::new();
    for path in [
        &b"/other/alice"[..],
        b"/data",
        b"/data/",
        b"/data/a/b",
        b"/",
        b"",
        b"/DATA/alice",
    ] {
        let r = handle_request(&mut store, Method::Get, &path.to_vec(), Vec::new());
        assert_eq!(r.status, 404, "path {:?}", path);
        let r = handle_request(&mut store, Method::Put, &path.to_vec(), b"v".to_vec());
        assert_eq!(r.status, 404, "path {:?}", path);
    }
}

#[test]
fn unknown_method_is_405() {
    let mut store = DataManager::new();
    handle_request(&mut store, Method::Put, &b"/data/k".to_vec(), b"v".to_vec());
    let r = handle_request(&mut store, Method::Other, &b"/data/k".to_vec(), Vec::new());
    assert_eq!(r.status, 405);
    assert!(!r.body.is_empty());
    let r = handle_request(&mut store, Method::Get, &b"/data/k".to_vec(), Vec::new());
    assert_eq!(r.body, b"v".to_vec());
}

#[test]
fn percent_encoded_keys_round_trip() {
    let mut store = DataManager::new();
    let r = handle_request(
        &mut store,
        Method::Put,
        &b"/data/a%20b".to_vec(),
        b"spaced".to_vec(),
    );
    assert_eq!(r.status, 200);
    let r = handle_request(&mut store, Method::Get, &b"/data/a%20b".to_vec(), Vec::new());
    assert_eq!(r.status, 200);
    assert_eq!(r.body, b"spaced".to_vec());
}

#[test]
fn percent_escape_names_the_literal_key() {
    let mut store = DataManager::new();
    handle_request(&mut store, Method::Put, &b"/data/%41".to_vec(), b"v".to_vec());
    let r = handle_request(&mut store, Method::Get, &b"/data/A".to_vec(), Vec::new());
    assert_eq!(r.status, 200);
    assert_eq!(r.body, b"v".to_vec());
}

#[test]
fn malformed_percent_escape_is_404() {
    let mut store = DataManager::new();
    for path in [&b"/data/a%2"[..], b"/data/%zz", b"/data/%"] {
        let r = handle_request(&mut store, Method::Get, &path.to_vec(), Vec::new());
        assert_eq!(r.status, 404, "path {:?}", path);
    }
}

#[test]
fn handle_get_and_put_on_decoded_keys() {
    let mut store = DataManager::new();
    let r = handle_put(&mut store, b"k".to_vec(), b"v".to_vec());
    assert_eq!(r.status, 200);
    let r = handle_get(&store, &b"k".to_vec());
    assert_eq!(r.status, 200);
    assert_eq!(r.body, b"v".to_vec());
    let r = handle_get(&store, &b"missing".to_vec());
    assert_eq!(r.status, 404);
}

#[test]
fn parse_key_extracts_the_segment() {
    assert_eq!(parse_key(&b"/data/abc".to_vec()), Some(b"abc".to_vec()));
    assert_eq!(parse_key(&b"/data/a%7Eb".to_vec()), Some(b"a~b".to_vec()));
    assert_eq!(parse_key(&b"/data/".to_vec()), None);
    assert_eq!(parse_key(&b"/data/a/b".to_vec()), None);
    assert_eq!(parse_key(&b"/elsewhere".to_vec()), None);
}

#[test]
fn error_kinds_map_to_statuses_and_messages() {
    assert_eq!(status_of(HandlerError::NotFound), 404);
    assert_eq!(status_of(HandlerError::InvalidEncoding), 400);
    assert_eq!(status_of(HandlerError::InternalError), 500);
    assert_eq!(message_of(HandlerError::NotFound), b"not found".to_vec());
    assert_eq!(message_of(HandlerError::InvalidEncoding), b"bad encoding".to_vec());
    assert_eq!(message_of(HandlerError::InternalError), b"internal error".to_vec());
    let r = error_response(HandlerError::InternalError);
    assert_eq!(r.status, 500);
    assert_eq!(r.body, b"internal error".to_vec());
}
