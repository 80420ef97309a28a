use httpkv::get::{get_item, get_or_list_prefix, list_items, GetOrListParams, Reply};
use httpkv::post::{write_key, WriteParams};
use httpkv::store::{KvError, Store};

fn no_preconditions() -> WriteParams {
    WriteParams { if_exists: false, not_exists: false, version: None }
}

fn plain_get_params() -> GetOrListParams {
    GetOrListParams {
        list: false,
        limit: None,
        with_vals: false,
        reverse: false,
        start: None,
        end: None,
    }
}

fn put(store: &mut Store, key: &str, body: &str) -> Result<i64, KvError> {
    write_key(
        store,
        key.as_bytes().to_vec(),
        &no_preconditions(),
        body.as_bytes().to_vec(),
        0,
    )
}

fn put_with(store: &mut Store, key: &str, body: &str, params: WriteParams) -> Result<i64, KvError> {
    write_key(store, key.as_bytes().to_vec(), &params, body.as_bytes().to_vec(), 0)
}

#[test]
fn test_list_ordering() {
    let mut store = Store::new();
    for key in ["pear", "apple", "zebra", "mango", "fig"] {
        put(&mut store, key, "x").unwrap();
    }
    let forward = store.range_forward(&Vec::new(), 100, false);
    let keys: Vec<&[u8]> = forward.iter().map(|p| p.0.as_slice()).collect();
    assert_eq!(
        keys,
        vec![
            b"apple".as_slice(),
            b"fig".as_slice(),
            b"mango".as_slice(),
            b"pear".as_slice(),
            b"zebra".as_slice()
        ]
    );
    let backward = store.range_reverse(None, 100, false);
    let mut reversed: Vec<&[u8]> = backward.iter().map(|p| p.0.as_slice()).collect();
    reversed.reverse();
    assert_eq!(keys, reversed);
}

#[test]
fn test_reverse_without_prefix_includes_last_key() {
    let mut store = Store::new();
    put(&mut store, "a", "1").unwrap();
    put(&mut store, "z", "2").unwrap();
    let backward = store.range_reverse(None, 100, false);
    assert_eq!(backward[0].0, b"z".to_vec());
    assert_eq!(backward[1].0, b"a".to_vec());
}

#[test]
fn test_reverse_prefix_is_exclusive() {
    let mut store = Store::new();
    for key in ["a", "b", "c"] {
        put(&mut store, key, "x").unwrap();
    }
    let below_b = store.range_reverse(Some(&b"b".to_vec()), 100, false);
    assert_eq!(below_b.len(), 1);
    assert_eq!(below_b[0].0, b"a".to_vec());
}

#[test]
fn test_idempotent_overwrite() {
    let mut store = Store::new();
    let v1 = put(&mut store, "k", "v1").unwrap();
    let v2 = put(&mut store, "k", "v1").unwrap();
    assert!(v2 > v1);
    let got = get_item(&store, &plain_get_params(), &b"k".to_vec()).unwrap();
    assert_eq!(got.data, b"v1".to_vec());
    assert_eq!(got.version, v2);
}

#[test]
fn test_nx_semantics() {
    let mut store = Store::new();
    let nx = WriteParams { if_exists: false, not_exists: true, version: None };
    put_with(&mut store, "a", "x", nx).unwrap();
    let second = put_with(&mut store, "a", "y", nx);
    assert_eq!(second, Err(KvError::AlreadyExists));
    let got = get_item(&store, &plain_get_params(), &b"a".to_vec()).unwrap();
    assert_eq!(got.data, b"x".to_vec());
}

#[test]
fn test_ix_semantics() {
    let mut store = Store::new();
    let ix = WriteParams { if_exists: true, not_exists: false, version: None };
    let refused = put_with(&mut store, "b", "x", ix);
    assert_eq!(refused, Err(KvError::DoesNotExist));
    put(&mut store, "b", "x").unwrap();
    put_with(&mut store, "b", "y", ix).unwrap();
    let got = get_item(&store, &plain_get_params(), &b"b".to_vec()).unwrap();
    assert_eq!(got.data, b"y".to_vec());
}

#[test]
fn test_cas_semantics() {
    let mut store = Store::new();
    let v1 = put(&mut store, "c", "x").unwrap();
    let cas_v1 = WriteParams { if_exists: false, not_exists: false, version: Some(v1) };
    let v2 = put_with(&mut store, "c", "y", cas_v1).unwrap();
    assert!(v2 > v1);
    let stale = put_with(&mut store, "c", "z", cas_v1);
    assert_eq!(stale, Err(KvError::VersionMismatch));
}

#[test]
fn test_cas_race_one_winner() {
    // two writers race with the same expected version; the store applies
    // their check-and-set sequences one at a time, so whichever runs second
    // must lose -- in either order
    let mut store = Store::new();
    let v1 = put(&mut store, "k", "base").unwrap();
    let cas = WriteParams { if_exists: false, not_exists: false, version: Some(v1) };
    let first = put_with(&mut store, "k", "writer one", cas);
    let second = put_with(&mut store, "k", "writer two", cas);
    assert!(first.is_ok());
    assert_eq!(second, Err(KvError::VersionMismatch));
}

#[test]
fn test_range_read() {
    let mut store = Store::new();
    put(&mut store, "d", "hello world").unwrap();
    let params = GetOrListParams { start: Some(0), end: Some(5), ..plain_get_params() };
    let got = get_item(&store, &params, &b"d".to_vec()).unwrap();
    assert_eq!(got.data, b"hello".to_vec());
}

#[test]
fn test_range_read_rejects_bad_bounds() {
    let mut store = Store::new();
    put(&mut store, "d", "hello").unwrap();
    let past_end = GetOrListParams { start: Some(0), end: Some(6), ..plain_get_params() };
    assert_eq!(
        get_item(&store, &past_end, &b"d".to_vec()).unwrap_err(),
        KvError::InvalidRange
    );
    let inverted = GetOrListParams { start: Some(3), end: Some(1), ..plain_get_params() };
    assert_eq!(
        get_item(&store, &inverted, &b"d".to_vec()).unwrap_err(),
        KvError::InvalidRange
    );
    let negative = GetOrListParams { start: Some(-1), end: None, ..plain_get_params() };
    assert_eq!(
        get_item(&store, &negative, &b"d".to_vec()).unwrap_err(),
        KvError::InvalidRange
    );
}

#[test]
fn test_get_missing_key() {
    let store = Store::new();
    assert_eq!(
        get_item(&store, &plain_get_params(), &b"nope".to_vec()).unwrap_err(),
        KvError::NotFound
    );
}

#[test]
fn test_pagination() {
    let mut store = Store::new();
    for i in 0..10 {
        put(&mut store, &format!("k{}", i), "v").unwrap();
    }
    let first_page = store.range_forward(&Vec::new(), 3, false);
    let keys: Vec<&[u8]> = first_page.iter().map(|p| p.0.as_slice()).collect();
    assert_eq!(keys, vec![b"k0".as_slice(), b"k1".as_slice(), b"k2".as_slice()]);
    let from_k5 = store.range_forward(&b"k5".to_vec(), 3, false);
    let keys: Vec<&[u8]> = from_k5.iter().map(|p| p.0.as_slice()).collect();
    assert_eq!(keys, vec![b"k5".as_slice(), b"k6".as_slice(), b"k7".as_slice()]);
}

#[test]
fn test_invalid_preconditions() {
    let mut store = Store::new();
    let both = WriteParams { if_exists: true, not_exists: true, version: None };
    assert_eq!(
        put_with(&mut store, "k", "v", both),
        Err(KvError::InvalidPreconditions)
    );
    // the refused write touched nothing
    assert_eq!(
        get_item(&store, &plain_get_params(), &b"k".to_vec()).unwrap_err(),
        KvError::NotFound
    );
}

#[test]
fn test_version_uses_caller_clock_when_ahead() {
    let mut store = Store::new();
    let v1 = write_key(
        &mut store,
        b"k".to_vec(),
        &no_preconditions(),
        b"v".to_vec(),
        1_700_000_000_000_000,
    )
    .unwrap();
    assert_eq!(v1, 1_700_000_000_000_000);
    // a stalled clock still yields a strictly greater version
    let v2 = write_key(
        &mut store,
        b"k".to_vec(),
        &no_preconditions(),
        b"v".to_vec(),
        1_700_000_000_000_000,
    )
    .unwrap();
    assert_eq!(v2, 1_700_000_000_000_001);
}

#[test]
fn test_list_items_rendering() {
    let mut store = Store::new();
    put(&mut store, "a", "1").unwrap();
    put(&mut store, "b", "2").unwrap();
    let keys_only = GetOrListParams { list: true, ..plain_get_params() };
    let body = list_items(&store, &keys_only, None);
    assert_eq!(body, b"a\nb".to_vec());
    let with_vals = GetOrListParams { list: true, with_vals: true, ..plain_get_params() };
    let body = list_items(&store, &with_vals, None);
    assert_eq!(body, b"a\n1\n\nb\n2".to_vec());
    let empty_store = Store::new();
    assert_eq!(list_items(&empty_store, &keys_only, None), Vec::<u8>::new());
}

#[test]
fn test_list_limit_defaults_and_clamping() {
    let mut store = Store::new();
    for i in 0..5 {
        put(&mut store, &format!("k{}", i), "v").unwrap();
    }
    let negative = GetOrListParams { list: true, limit: Some(-7), ..plain_get_params() };
    assert_eq!(list_items(&store, &negative, None), Vec::<u8>::new());
    let unlimited = GetOrListParams { list: true, limit: Some(i64::MAX), ..plain_get_params() };
    assert_eq!(list_items(&store, &unlimited, None), b"k0\nk1\nk2\nk3\nk4".to_vec());
}

#[test]
fn test_dispatch() {
    let mut store = Store::new();
    put(&mut store, "a", "1").unwrap();
    match get_or_list_prefix(&store, None, &plain_get_params()).unwrap() {
        Reply::Alive => {}
        _ => panic!("expected the health check"),
    }
    match get_or_list_prefix(&store, Some(b"a".to_vec()), &plain_get_params()).unwrap() {
        Reply::Value(item) => assert_eq!(item.data, b"1".to_vec()),
        _ => panic!("expected a point read"),
    }
    let listing = GetOrListParams { list: true, ..plain_get_params() };
    match get_or_list_prefix(&store, None, &listing).unwrap() {
        Reply::Listing(body) => assert_eq!(body, b"a".to_vec()),
        _ => panic!("expected a listing"),
    }
}

#[test]
fn test_prefix_is_a_lower_bound_not_a_filter() {
    // a forward listing starts at the prefix and keeps going past keys that
    // no longer share it; a true prefix filter is the caller's business
    let mut store = Store::new();
    for key in ["a", "ab", "b"] {
        put(&mut store, key, "x").unwrap();
    }
    let from_a = store.range_forward(&b"a".to_vec(), 100, false);
    let keys: Vec<&[u8]> = from_a.iter().map(|p| p.0.as_slice()).collect();
    assert_eq!(
        keys,
        vec![b"a".as_slice(), b"ab".as_slice(), b"b".as_slice()]
    );
}

#[test]
fn test_failed_write_leaves_store_unchanged() {
    let mut store = Store::new();
    let v1 = put(&mut store, "k", "before").unwrap();
    let stale = WriteParams { if_exists: false, not_exists: false, version: Some(v1 + 7) };
    assert_eq!(
        put_with(&mut store, "k", "after", stale),
        Err(KvError::VersionMismatch)
    );
    let got = get_item(&store, &plain_get_params(), &b"k".to_vec()).unwrap();
    assert_eq!(got.data, b"before".to_vec());
    assert_eq!(got.version, v1);
}
