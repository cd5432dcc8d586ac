use cache_aside::cache::KeyValueStore;
use cache_aside::pool::{
    broker_pool_config, key_value_pool_config, relational_pool_config, Pool, PoolConfig,
};
use cache_aside::primary::PrimaryStore;
use cache_aside::item::Item;

fn item(id: u64, title: &str, content: &str) -> Item {
    Item {
        id,
        title: String::from(title),
        content: String::from(content),
    }
}

#[test]
fn configured_pool_sizes_match_the_deployment() {
    let rel = relational_pool_config();
    assert_eq!(rel.min_idle, 5);
    assert_eq!(rel.max_size, 50);

    let kv = key_value_pool_config();
    assert_eq!(kv.min_idle, 5);
    assert_eq!(kv.max_size, 50);

    let broker = broker_pool_config();
    assert_eq!(broker.max_size, 15);
    assert_eq!(broker.wait_timeout_secs, 60);
    assert_eq!(broker.create_timeout_secs, 60);
    assert_eq!(broker.recycle_timeout_secs, 60);
}

#[test]
fn checkout_fails_only_at_the_limit() {
    let config = PoolConfig {
        min_idle: 1,
        max_size: 3,
        wait_timeout_secs: 1,
        create_timeout_secs: 1,
        recycle_timeout_secs: 1,
    };
    let mut pool = Pool::build(config);
    let a = pool.checkout().unwrap();
    let b = pool.checkout().unwrap();
    let c = pool.checkout().unwrap();
    // the pool is at its maximum: the next checkout fails instead of hanging
    assert!(pool.checkout().is_err());
    assert!(pool.checkout().is_err());
    // returning one connection makes exactly one checkout possible again
    pool.checkin(b);
    let d = pool.checkout().unwrap();
    assert!(pool.checkout().is_err());
    pool.checkin(a);
    pool.checkin(c);
    pool.checkin(d);
}

#[test]
fn cache_write_replaces_and_expires() {
    let mut store = KeyValueStore::new();
    let key = String::from("post_page_1");

    assert!(store.get(&key, 0).is_none());

    store.set_with_expiry(&key, &String::from("one"), 50);
    assert_eq!(store.get(&key, 0).unwrap(), "one");
    assert_eq!(store.get(&key, 49).unwrap(), "one");
    assert!(store.get(&key, 50).is_none());
    assert!(store.get(&key, 51).is_none());

    // a later write replaces both value and expiry
    store.set_with_expiry(&key, &String::from("two"), 100);
    assert_eq!(store.get(&key, 60).unwrap(), "two");
    assert!(store.get(&key, 100).is_none());
}

#[test]
fn cache_keys_are_independent() {
    let mut store = KeyValueStore::new();
    let one = String::from("post_page_1");
    let two = String::from("post_page_2");
    store.set_with_expiry(&one, &String::from("first"), 100);
    store.set_with_expiry(&two, &String::from("second"), 100);
    assert_eq!(store.get(&one, 0).unwrap(), "first");
    assert_eq!(store.get(&two, 0).unwrap(), "second");
    store.set_with_expiry(&one, &String::from("changed"), 100);
    assert_eq!(store.get(&two, 0).unwrap(), "second");
}

#[test]
fn fetch_page_slices_in_order() {
    let rows = vec![
        item(1, "a", "x"),
        item(2, "b", "y"),
        item(3, "c", "z"),
        item(5, "d", "w"),
        item(8, "e", "v"),
    ];
    let store = PrimaryStore::new(rows);

    let first_two = store.fetch_page(2, 0).unwrap();
    let ids: Vec<u64> = first_two.iter().map(|i| i.id).collect();
    assert_eq!(ids, vec![1, 2]);

    let middle = store.fetch_page(2, 2).unwrap();
    let ids: Vec<u64> = middle.iter().map(|i| i.id).collect();
    assert_eq!(ids, vec![3, 5]);

    let tail = store.fetch_page(10, 4).unwrap();
    let ids: Vec<u64> = tail.iter().map(|i| i.id).collect();
    assert_eq!(ids, vec![8]);

    assert!(store.fetch_page(10, 5).unwrap().is_empty());
    assert!(store.fetch_page(10, 1_000_000).unwrap().is_empty());
}

#[test]
fn fetch_page_propagates_the_fault_message() {
    let mut store = PrimaryStore::new(vec![item(1, "a", "x")]);
    store.set_fault(String::from("relation does not exist"));
    let err = store.fetch_page(10, 0).unwrap_err();
    assert_eq!(err.message, "relation does not exist");
}
