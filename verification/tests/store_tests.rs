use miniredis::data_store::{
    blpop_result, BlpopWait, BlpopStart, KvStore, PushType, RedisValue, SetOptions, Store, StoredVal,
};
use miniredis::redis_error::RedisError;

fn s(x: &str) -> String {
    x.to_string()
}

fn strings(v: &[&str]) -> Vec<String> {
    v.iter().map(|x| x.to_string()).collect()
}

fn string_value(v: Option<RedisValue>) -> Option<String> {
    match v {
        Some(RedisValue::StringVal(x)) => Some(x),
        Some(RedisValue::ListVal(_)) => panic!("expected a string value"),
        None => None,
    }
}

fn wrong_type_text(r: RedisError) -> String {
    match r {
        RedisError::WrongType(m) => m,
        other => panic!("unexpected: {:?}", other),
    }
}

fn list_of(kv: &mut KvStore, key: &str) -> Vec<String> {
    kv.lrange(s(key), 0, -1).unwrap()
}

#[test]
fn get_returns_what_set_stored() {
    let mut kv = KvStore::new();
    assert!(kv.set(s("name"), s("redis"), None, 0).is_ok());
    assert_eq!(string_value(kv.get(s("name"), 5)), Some(s("redis")));
    assert_eq!(string_value(kv.get(s("other"), 5)), None);
    assert!(kv.db.keys_with_expiry.is_empty());
}

#[test]
fn set_overwrites_the_value() {
    let mut kv = KvStore::new();
    kv.set(s("k"), s("1"), None, 0).unwrap();
    kv.set(s("k"), s("2"), None, 0).unwrap();
    assert_eq!(string_value(kv.get(s("k"), 0)), Some(s("2")));
}

#[test]
fn ex_is_seconds_and_px_is_milliseconds() {
    let mut kv = KvStore::new();
    kv.set(s("a"), s("1"), Some(vec![SetOptions::EX(s("10"))]), 1000).unwrap();
    kv.set(s("b"), s("2"), Some(vec![SetOptions::PX(s("250"))]), 1000).unwrap();
    assert_eq!(kv.db.kv.get("a").unwrap().expiry, Some(11000));
    assert_eq!(kv.db.kv.get("b").unwrap().expiry, Some(1250));
    assert_eq!(kv.db.keys_with_expiry, vec![(s("a"), 11000), (s("b"), 1250)]);
    assert_eq!(*kv.db.index_map.get("a").unwrap(), 0);
    assert_eq!(*kv.db.index_map.get("b").unwrap(), 1);
}

#[test]
fn the_last_option_decides_the_expiry() {
    let mut kv = KvStore::new();
    let opts = vec![SetOptions::EX(s("1")), SetOptions::PX(s("5"))];
    kv.set(s("k"), s("v"), Some(opts), 0).unwrap();
    assert_eq!(kv.db.kv.get("k").unwrap().expiry, Some(5));
}

#[test]
fn value_expires_after_its_time() {
    let mut kv = KvStore::new();
    kv.set(s("short"), s("1"), Some(vec![SetOptions::PX(s("100"))]), 0).unwrap();
    kv.set(s("long"), s("2"), Some(vec![SetOptions::PX(s("1000"))]), 0).unwrap();
    assert_eq!(string_value(kv.get(s("short"), 100)), Some(s("1")));
    assert_eq!(string_value(kv.get(s("short"), 101)), None);
    assert!(kv.db.kv.get("short").is_none());
    assert_eq!(kv.db.keys_with_expiry, vec![(s("long"), 1000)]);
    assert!(kv.db.index_map.get("short").is_none());
    assert_eq!(string_value(kv.get(s("long"), 101)), Some(s("2")));
}

#[test]
fn bad_option_argument_is_refused_and_nothing_is_stored() {
    let mut kv = KvStore::new();
    match kv.set(s("k"), s("v"), Some(vec![SetOptions::EX(s("abc"))]), 0) {
        Err(RedisError::InvalidArgumentForCommandOption(c, o, g, t)) => {
            assert_eq!((c, o, g, t), (s("SET"), s("EX"), s("Integer"), s("abc")));
        }
        other => panic!("unexpected: {:?}", other),
    }
    match kv.set(s("k"), s("v"), Some(vec![SetOptions::PX(s("-5"))]), 0) {
        Err(RedisError::InvalidArgumentForCommandOption(_, o, _, a)) => {
            assert_eq!((o, a), (s("PX"), s("-5")));
        }
        other => panic!("unexpected: {:?}", other),
    }
    assert_eq!(string_value(kv.get(s("k"), 0)), None);
    assert!(kv.db.keys_with_expiry.is_empty());
}

#[test]
fn rpush_appends_and_lpush_prepends_reversed() {
    let mut kv = KvStore::new();
    assert_eq!(kv.push(s("l"), strings(&["a", "b"]), PushType::Right).unwrap(), 2);
    assert_eq!(kv.push(s("l"), strings(&["x", "y"]), PushType::Left).unwrap(), 4);
    assert_eq!(list_of(&mut kv, "l"), strings(&["y", "x", "a", "b"]));
}

#[test]
fn push_onto_a_string_is_refused() {
    let mut kv = KvStore::new();
    kv.set(s("str"), s("v"), None, 0).unwrap();
    let e = kv.push(s("str"), strings(&["a"]), PushType::Right).unwrap_err();
    assert_eq!(
        wrong_type_text(e),
        "Key: str already exists in kv store and the value for the key is a String. For existing keys, RPUSH requires the value be a list"
    );
    assert_eq!(string_value(kv.get(s("str"), 0)), Some(s("v")));
}

#[test]
fn lrange_takes_inclusive_ranges_with_negative_indices() {
    let mut kv = KvStore::new();
    kv.push(s("l"), strings(&["a", "b", "c", "d", "e"]), PushType::Right).unwrap();
    assert_eq!(kv.lrange(s("l"), 1, 3).unwrap(), strings(&["b", "c", "d"]));
    assert_eq!(kv.lrange(s("l"), -2, -1).unwrap(), strings(&["d", "e"]));
    assert_eq!(kv.lrange(s("l"), -100, 1).unwrap(), strings(&["a", "b"]));
    assert_eq!(kv.lrange(s("l"), 2, 100).unwrap(), strings(&["c", "d", "e"]));
    assert!(kv.lrange(s("l"), 3, 1).unwrap().is_empty());
    assert!(kv.lrange(s("l"), 5, 10).unwrap().is_empty());
    assert!(kv.lrange(s("missing"), 0, -1).unwrap().is_empty());
}

#[test]
fn lrange_of_a_string_is_refused() {
    let mut kv = KvStore::new();
    kv.set(s("str"), s("v"), None, 0).unwrap();
    assert_eq!(
        wrong_type_text(kv.lrange(s("str"), 0, 1).unwrap_err()),
        "Key: str exists in kv store but the value for the key is a String. LRANGE requires the value be a list"
    );
}

#[test]
fn llen_counts_list_elements() {
    let mut kv = KvStore::new();
    assert_eq!(kv.llen(s("l"), 0).unwrap(), None);
    kv.push(s("l"), strings(&["a", "b", "c"]), PushType::Left).unwrap();
    assert_eq!(kv.llen(s("l"), 0).unwrap(), Some(3));
    kv.set(s("str"), s("v"), None, 0).unwrap();
    assert_eq!(
        wrong_type_text(kv.llen(s("str"), 0).unwrap_err()),
        "Key: str has type String which is not compatible with LLEN command which expects the value stored with this key to be a list"
    );
}

#[test]
fn lpop_takes_from_the_front() {
    let mut kv = KvStore::new();
    kv.push(s("l"), strings(&["a", "b", "c"]), PushType::Right).unwrap();
    assert_eq!(kv.lpop(s("l"), 2).unwrap(), strings(&["a", "b"]));
    assert_eq!(list_of(&mut kv, "l"), strings(&["c"]));
    assert_eq!(kv.lpop(s("l"), 5).unwrap(), strings(&["c"]));
    assert!(list_of(&mut kv, "l").is_empty());
    assert!(kv.lpop(s("missing"), 1).unwrap().is_empty());
    kv.set(s("str"), s("v"), None, 0).unwrap();
    assert_eq!(
        wrong_type_text(kv.lpop(s("str"), 1).unwrap_err()),
        "Key: str has type String which is not compatible with LPOP command which expects the value stored with this key to be a list"
    );
}

#[test]
fn type_names_the_kind_of_value() {
    let mut kv = KvStore::new();
    kv.set(s("str"), s("v"), None, 0).unwrap();
    kv.push(s("l"), strings(&["a"]), PushType::Right).unwrap();
    assert_eq!(kv.get_type(s("str"), 0), "string");
    assert_eq!(kv.get_type(s("l"), 0), "list");
    assert_eq!(kv.get_type(s("nothing"), 0), "none");
}

#[test]
fn blpop_pops_at_once_when_the_list_has_an_element() {
    let mut kv = KvStore::new();
    kv.push(s("l"), strings(&["a", "b"]), PushType::Right).unwrap();
    match kv.blpop(s("l"), 500).unwrap() {
        BlpopStart::Ready(v) => assert_eq!(v, strings(&["l", "a"])),
        BlpopStart::Waiting(_) => panic!("expected an element at once"),
    }
    assert_eq!(list_of(&mut kv, "l"), strings(&["b"]));
}

#[test]
fn blpop_waits_and_a_push_hands_the_element_over() {
    let mut kv = KvStore::new();
    let mut rx = match kv.blpop(s("q"), 500).unwrap() {
        BlpopStart::Waiting(rx) => rx,
        BlpopStart::Ready(_) => panic!("expected to wait"),
    };
    assert!(rx.try_recv().is_err());
    assert_eq!(kv.push(s("q"), strings(&["v"]), PushType::Right).unwrap(), 1);
    assert_eq!(rx.try_recv().unwrap(), strings(&["q", "v"]));
    assert!(list_of(&mut kv, "q").is_empty());
}

#[test]
fn waiters_are_served_oldest_first_and_the_rest_is_pushed() {
    let mut kv = KvStore::new();
    let mut first = match kv.blpop(s("q"), 500).unwrap() {
        BlpopStart::Waiting(rx) => rx,
        BlpopStart::Ready(_) => panic!("expected to wait"),
    };
    let mut second = match kv.blpop(s("q"), 900).unwrap() {
        BlpopStart::Waiting(rx) => rx,
        BlpopStart::Ready(_) => panic!("expected to wait"),
    };
    assert_eq!(kv.push(s("q"), strings(&["a", "b", "c"]), PushType::Right).unwrap(), 1);
    assert_eq!(first.try_recv().unwrap(), strings(&["q", "a"]));
    assert_eq!(second.try_recv().unwrap(), strings(&["q", "b"]));
    assert_eq!(list_of(&mut kv, "q"), strings(&["c"]));
}

#[test]
fn blpop_on_a_string_is_refused() {
    let mut kv = KvStore::new();
    kv.set(s("str"), s("v"), None, 0).unwrap();
    match kv.blpop(s("str"), 1) {
        Err(e) => assert!(wrong_type_text(e).starts_with("Key: str has type String")),
        Ok(_) => panic!("expected an error"),
    }
}

#[test]
fn store_remove_moves_the_last_expiry_entry_into_the_gap() {
    let mut store = Store::new();
    for (k, t) in [("a", 10u128), ("b", 20), ("c", 30)] {
        let val = StoredVal { val: RedisValue::StringVal(s("v")), expiry: Some(t) };
        store.insert(s(k), val, Some(t));
    }
    store.remove(&s("a"));
    assert!(store.kv.get("a").is_none());
    assert_eq!(store.keys_with_expiry, vec![(s("c"), 30), (s("b"), 20)]);
    assert_eq!(*store.index_map.get("c").unwrap(), 0);
    assert!(store.index_map.get("a").is_none());
    store.remove(&s("nothing"));
    assert_eq!(store.keys_with_expiry.len(), 2);
}

#[test]
fn store_remove_of_a_key_without_expiry_leaves_the_entries() {
    let mut store = Store::new();
    store.insert(s("k"), StoredVal { val: RedisValue::StringVal(s("v")), expiry: None }, None);
    assert!(store.kv.get("k").is_some());
    store.remove(&s("k"));
    assert!(store.kv.get("k").is_none());
    assert!(store.keys_with_expiry.is_empty());
}

#[test]
fn domain_checks_answer_for_the_store() {
    let mut kv = KvStore::new();
    kv.set(s("only"), s("v"), Some(vec![SetOptions::PX(s("1"))]), 0).unwrap();
    assert!(kv.get_in_range(&s("only"), 1));
    assert!(!kv.get_in_range(&s("only"), 2));
    assert!(!kv.db.remove_in_range(&s("only")));
    kv.set(s("other"), s("v"), Some(vec![SetOptions::PX(s("1"))]), 0).unwrap();
    assert!(kv.get_in_range(&s("only"), 2));
    assert!(kv.db.lrange_in_range(&s("only")));
}

#[test]
fn blpop_answer_after_the_wait() {
    assert_eq!(blpop_result(BlpopWait::Received(strings(&["q", "v"]))).unwrap(), strings(&["q", "v"]));
    assert!(blpop_result(BlpopWait::TimedOut).unwrap().is_empty());
    match blpop_result(BlpopWait::SenderGone) {
        Err(e) => {
            assert!(matches!(e, RedisError::IoError(_)));
            assert_eq!(e.to_string(), "Receiver dropped for BLPOP operation");
        }
        Ok(_) => panic!("expected an error"),
    }
}
