use miniredis::data_store::{RedisValue, Store, StoredVal};
use miniredis::key_recycler::{active_cleanup, cleanup_pass, list_keys, no_keys_expire, sample_keys_loop, CleanupEnd, CleanupStep};

fn s(x: &str) -> String {
    x.to_string()
}

fn store_with(entries: &[(&str, u128)]) -> Store {
    let mut store = Store::new();
    for (k, t) in entries {
        let val = StoredVal { val: RedisValue::StringVal(s("v")), expiry: Some(*t) };
        store.insert(s(k), val, Some(*t));
    }
    store
}

#[test]
fn keys_are_listed_on_one_line() {
    assert_eq!(list_keys(&vec![s("a"), s("b")]), ", a , b ");
    assert_eq!(list_keys(&Vec::new()), "");
}

#[test]
fn a_sample_finds_the_expired_keys() {
    let entries = vec![(s("a"), 10u128), (s("b"), 50), (s("c"), 100)];
    let mut log = Vec::new();
    let (mut expired, size) = sample_keys_loop(&entries, &mut log, 60);
    expired.sort();
    assert_eq!(expired, vec![s("a"), s("b")]);
    assert_eq!(size, 3);
    assert_eq!(
        log,
        vec![
            s("[Active Cleanup Pass] Obtaining random sample of 3 keys"),
            s("[Active Cleanup Pass] Found 2 expired keys in the random sample"),
        ]
    );
}

#[test]
fn a_sample_holds_at_most_twenty_entries() {
    let entries: Vec<(String, u128)> = (0..25).map(|i| (format!("k{}", i), 0u128)).collect();
    let mut log = Vec::new();
    let (expired, size) = sample_keys_loop(&entries, &mut log, 1);
    assert_eq!(size, 20);
    assert_eq!(expired.len(), 20);
    let mut distinct = expired.clone();
    distinct.sort();
    distinct.dedup();
    assert_eq!(distinct.len(), 20);
    assert_eq!(log[0], "[Active Cleanup Pass] Obtaining random sample of 20 keys");
}

#[test]
fn a_pass_removes_expired_keys_and_goes_on_while_many_expired() {
    let mut store = store_with(&[("a", 10), ("b", 1000), ("c", 1000)]);
    let mut log = Vec::new();
    let step = cleanup_pass(&mut store, 1, 100, &mut log);
    assert!(matches!(step, CleanupStep::Continue));
    assert!(store.kv.get("a").is_none());
    assert!(store.kv.get("b").is_some());
    assert_eq!(store.keys_with_expiry, vec![(s("c"), 1000), (s("b"), 1000)]);
    assert_eq!(
        log,
        vec![
            s("[Active Cleanup Pass] Obtaining random sample of 3 keys"),
            s("[Active Cleanup Pass] Found 1 expired keys in the random sample"),
            s("[Active Cleanup Pass] Removing the following expired keys: , a "),
        ]
    );
    let mut log = Vec::new();
    let step = cleanup_pass(&mut store, 2, 100, &mut log);
    assert!(matches!(step, CleanupStep::Done));
    assert_eq!(
        log,
        vec![
            s("[Active Cleanup Pass] Obtaining random sample of 2 keys"),
            s("[Active Cleanup Pass] Found 0 expired keys in the random sample"),
            s("[Active Cleanup Pass] Removing the following expired keys: "),
            s("[Active Cleanup Pass] Number of expired keys less than 25% of sample, ending loop after 2 pass(es)"),
        ]
    );
}

#[test]
fn a_pass_ends_when_few_keys_expired() {
    let entries: Vec<(String, u128)> = (0..25).map(|i| (format!("k{}", i), 500u128)).collect();
    let mut store = Store::new();
    for (k, t) in entries {
        store.insert(k, StoredVal { val: RedisValue::StringVal(s("v")), expiry: Some(t) }, Some(t));
    }
    let mut log = Vec::new();
    let step = cleanup_pass(&mut store, 1, 100, &mut log);
    assert!(matches!(step, CleanupStep::Done));
    assert_eq!(store.keys_with_expiry.len(), 25);
    assert_eq!(log.len(), 4);
}

#[test]
fn removing_the_only_expiring_key_is_a_fault() {
    let mut store = store_with(&[("a", 10)]);
    let mut log = Vec::new();
    let step = cleanup_pass(&mut store, 1, 100, &mut log);
    assert!(matches!(step, CleanupStep::Fault));
    assert_eq!(log.len(), 3);
    assert_eq!(log[2], "[Active Cleanup Pass] Removing the following expired keys: , a ");
}

#[test]
fn the_cleanup_has_nothing_to_do_without_expiring_keys() {
    let mut store = Store::new();
    store.insert(s("k"), StoredVal { val: RedisValue::StringVal(s("v")), expiry: None }, None);
    let mut log = Vec::new();
    assert!(no_keys_expire(&store, &mut log));
    assert_eq!(log, vec![s("[Active Cleanup Pass] No keys have an expiration: returning")]);
    let store = store_with(&[("a", 10)]);
    let mut log = Vec::new();
    assert!(!no_keys_expire(&store, &mut log));
    assert!(log.is_empty());
}

#[test]
fn a_whole_cleanup_runs_passes_until_few_keys_expired() {
    let mut store = store_with(&[("a", 10), ("b", 1000), ("c", 1000)]);
    let mut log = Vec::new();
    assert!(matches!(active_cleanup(&mut store, 100, &mut log), CleanupEnd::Done));
    assert!(store.kv.get("a").is_none());
    assert_eq!(store.keys_with_expiry, vec![(s("c"), 1000), (s("b"), 1000)]);
    assert_eq!(log.len(), 7);
    assert_eq!(log[2], "[Active Cleanup Pass] Removing the following expired keys: , a ");
    assert_eq!(
        log[6],
        "[Active Cleanup Pass] Number of expired keys less than 25% of sample, ending loop after 2 pass(es)"
    );
}

#[test]
fn a_whole_cleanup_without_expiring_keys_only_logs() {
    let mut store = Store::new();
    let mut log = Vec::new();
    assert!(matches!(active_cleanup(&mut store, 100, &mut log), CleanupEnd::Done));
    assert_eq!(log, vec![s("[Active Cleanup Pass] No keys have an expiration: returning")]);
}

#[test]
fn a_whole_cleanup_stops_at_a_fault() {
    let mut store = store_with(&[("a", 10)]);
    let mut log = Vec::new();
    assert!(matches!(active_cleanup(&mut store, 100, &mut log), CleanupEnd::Fault));
}
