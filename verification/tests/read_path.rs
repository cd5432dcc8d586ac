use cache_aside::cache::KeyValueStore;
use cache_aside::errors::RequestError;
use cache_aside::item::{Item, Source};
use cache_aside::keys::cache_key;
use cache_aside::pool::{Pool, PoolConfig};
use cache_aside::primary::PrimaryStore;
use cache_aside::read_path::get_page;

fn rows_1_to(n: u64) -> Vec<Item> {
    let mut rows = Vec::new();
    for id in 1..=n {
        rows.push(Item {
            id,
            title: format!("title {}", id),
            content: format!("content {}", id),
        });
    }
    rows
}

fn fresh_pools() -> (Pool, Pool) {
    (
        Pool::build(cache_aside::pool::key_value_pool_config()),
        Pool::build(cache_aside::pool::relational_pool_config()),
    )
}

fn ids(items: &[Item]) -> Vec<u64> {
    items.iter().map(|i| i.id).collect()
}

#[test]
fn scenario_cold_then_warm_then_partial_page() {
    let (mut kv, mut db) = fresh_pools();
    let mut cache = KeyValueStore::new();
    let store = PrimaryStore::new(rows_1_to(25));

    let first = get_page(&mut kv, &mut db, &mut cache, &store, "post", 1, 0).unwrap();
    assert_eq!(first.source, Source::Primary);
    assert_eq!(ids(&first.items), (1..=10).collect::<Vec<u64>>());

    let key = cache_key("post", 1);
    assert_eq!(key, "post_page_1");
    assert!(cache.get(&key, 0).is_some());

    let second = get_page(&mut kv, &mut db, &mut cache, &store, "post", 1, 0).unwrap();
    assert_eq!(second.source, Source::Cache);
    assert_eq!(ids(&second.items), ids(&first.items));
    for (a, b) in first.items.iter().zip(second.items.iter()) {
        assert_eq!(a.title, b.title);
        assert_eq!(a.content, b.content);
    }

    let third = get_page(&mut kv, &mut db, &mut cache, &store, "post", 3, 0).unwrap();
    assert_eq!(third.source, Source::Primary);
    assert_eq!(ids(&third.items), (21..=25).collect::<Vec<u64>>());
}

#[test]
fn hit_returns_population_content_until_ttl() {
    let (mut kv, mut db) = fresh_pools();
    let mut cache = KeyValueStore::new();
    let store = PrimaryStore::new(rows_1_to(12));

    let populated = get_page(&mut kv, &mut db, &mut cache, &store, "post", 2, 100).unwrap();
    assert_eq!(populated.source, Source::Primary);
    assert_eq!(ids(&populated.items), vec![11, 12]);

    let warm = get_page(&mut kv, &mut db, &mut cache, &store, "post", 2, 399).unwrap();
    assert_eq!(warm.source, Source::Cache);
    assert_eq!(ids(&warm.items), vec![11, 12]);
    assert!(cache.get(&cache_key("post", 2), 399).is_some());
}

#[test]
fn entry_expires_after_ttl() {
    let (mut kv, mut db) = fresh_pools();
    let mut cache = KeyValueStore::new();
    let store = PrimaryStore::new(rows_1_to(5));

    let populated = get_page(&mut kv, &mut db, &mut cache, &store, "post", 1, 100).unwrap();
    assert_eq!(populated.source, Source::Primary);

    // the entry is still physically stored, but reads as absent from t=400 on
    assert!(cache.get(&cache_key("post", 1), 399).is_some());
    assert!(cache.get(&cache_key("post", 1), 400).is_none());

    let expired = get_page(&mut kv, &mut db, &mut cache, &store, "post", 1, 400).unwrap();
    assert_eq!(expired.source, Source::Primary);
    assert_eq!(ids(&expired.items), vec![1, 2, 3, 4, 5]);
}

#[test]
fn repeated_reads_serve_equal_sequences() {
    let (mut kv, mut db) = fresh_pools();
    let mut cache = KeyValueStore::new();
    let store = PrimaryStore::new(rows_1_to(25));

    let mut seen: Vec<Vec<u64>> = Vec::new();
    for t in [0u64, 1, 150, 299, 300, 301, 1000] {
        let page = get_page(&mut kv, &mut db, &mut cache, &store, "post", 2, t).unwrap();
        seen.push(ids(&page.items));
    }
    for s in &seen {
        assert_eq!(*s, (11..=20).collect::<Vec<u64>>());
    }
}

#[test]
fn page_beyond_rows_is_empty_success() {
    let (mut kv, mut db) = fresh_pools();
    let mut cache = KeyValueStore::new();
    let store = PrimaryStore::new(rows_1_to(25));

    let beyond = get_page(&mut kv, &mut db, &mut cache, &store, "post", 4, 0).unwrap();
    assert_eq!(beyond.source, Source::Primary);
    assert!(beyond.items.is_empty());

    // the empty page is cached and served like any other page
    let again = get_page(&mut kv, &mut db, &mut cache, &store, "post", 4, 0).unwrap();
    assert_eq!(again.source, Source::Cache);
    assert!(again.items.is_empty());
}

#[test]
fn page_zero_is_rejected() {
    let (mut kv, mut db) = fresh_pools();
    let mut cache = KeyValueStore::new();
    let store = PrimaryStore::new(rows_1_to(3));

    let r = get_page(&mut kv, &mut db, &mut cache, &store, "post", 0, 0);
    assert!(matches!(r, Err(RequestError::InvalidPage)));
    let msg = r.err().unwrap().message();
    assert_eq!(msg, "invalid page number");
}

#[test]
fn exhausted_cache_pool_fails_request() {
    let tiny = PoolConfig {
        min_idle: 0,
        max_size: 1,
        wait_timeout_secs: 1,
        create_timeout_secs: 1,
        recycle_timeout_secs: 1,
    };
    let mut kv = Pool::build(tiny);
    let mut db = Pool::build(cache_aside::pool::relational_pool_config());
    let mut cache = KeyValueStore::new();
    let store = PrimaryStore::new(rows_1_to(3));

    let held = kv.checkout().unwrap();
    let r = get_page(&mut kv, &mut db, &mut cache, &store, "post", 1, 0);
    assert!(matches!(r, Err(RequestError::PoolExhausted)));

    kv.checkin(held);
    let r = get_page(&mut kv, &mut db, &mut cache, &store, "post", 1, 0);
    assert!(r.is_ok());
}

#[test]
fn primary_fault_is_surfaced_untransformed_and_not_cached() {
    let (mut kv, mut db) = fresh_pools();
    let mut cache = KeyValueStore::new();
    let mut store = PrimaryStore::new(rows_1_to(4));
    store.set_fault(String::from("connection refused by host"));

    let r = get_page(&mut kv, &mut db, &mut cache, &store, "post", 1, 0);
    match r {
        Err(RequestError::PrimaryStore(m)) => assert_eq!(m, "connection refused by host"),
        _ => panic!("expected a primary-store error"),
    }
    // the failed read wrote nothing to the cache
    assert!(cache.get(&cache_key("post", 1), 0).is_none());

    store.clear_fault();
    let healed = get_page(&mut kv, &mut db, &mut cache, &store, "post", 1, 0).unwrap();
    assert_eq!(healed.source, Source::Primary);
    assert_eq!(ids(&healed.items), vec![1, 2, 3, 4]);
}

#[test]
fn corrupt_cache_value_is_a_miss_and_repopulated() {
    let (mut kv, mut db) = fresh_pools();
    let mut cache = KeyValueStore::new();
    let store = PrimaryStore::new(rows_1_to(2));

    let key = cache_key("post", 1);
    cache.set_with_expiry(&key, &String::from("not a page at all"), 1000);

    let r = get_page(&mut kv, &mut db, &mut cache, &store, "post", 1, 0).unwrap();
    assert_eq!(r.source, Source::Primary);
    assert_eq!(ids(&r.items), vec![1, 2]);

    let again = get_page(&mut kv, &mut db, &mut cache, &store, "post", 1, 0).unwrap();
    assert_eq!(again.source, Source::Cache);
}

#[test]
fn empty_cache_value_is_a_miss() {
    let (mut kv, mut db) = fresh_pools();
    let mut cache = KeyValueStore::new();
    let store = PrimaryStore::new(rows_1_to(2));

    let key = cache_key("post", 1);
    cache.set_with_expiry(&key, &String::new(), 1000);

    let r = get_page(&mut kv, &mut db, &mut cache, &store, "post", 1, 0).unwrap();
    assert_eq!(r.source, Source::Primary);
}

#[test]
fn distinct_kinds_and_pages_use_distinct_keys() {
    let (mut kv, mut db) = fresh_pools();
    let mut cache = KeyValueStore::new();
    let store = PrimaryStore::new(rows_1_to(25));

    get_page(&mut kv, &mut db, &mut cache, &store, "post", 1, 0).unwrap();
    // a different page and a different kind still miss
    let other_page = get_page(&mut kv, &mut db, &mut cache, &store, "post", 2, 0).unwrap();
    assert_eq!(other_page.source, Source::Primary);
    let other_kind = get_page(&mut kv, &mut db, &mut cache, &store, "draft", 1, 0).unwrap();
    assert_eq!(other_kind.source, Source::Primary);
}
