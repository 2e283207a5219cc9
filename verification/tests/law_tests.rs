use miniredis::connection::handle_read;
use miniredis::data_store::{BlpopStart, KvStore, PushType, RedisValue, SetOptions, Store, StoredVal};
use miniredis::executor::RedisResponse;
use miniredis::parser::{parse_bulk_string, parse_resp_array};
use miniredis::resp_serializer::resp_serializer;
use miniredis::streams::{Stream, StreamNode};
use std::collections::HashMap;

fn s(x: &str) -> String {
    x.to_string()
}

fn strings(v: &[&str]) -> Vec<String> {
    v.iter().map(|x| x.to_string()).collect()
}

fn read_string(kv: &mut KvStore, key: &str, now: u128) -> Option<String> {
    match kv.get(s(key), now) {
        Some(RedisValue::StringVal(v)) => Some(v),
        Some(RedisValue::ListVal(_)) => panic!("expected a string"),
        None => None,
    }
}

#[test]
fn law_get_after_set_holds_at_any_later_time() {
    let mut kv = KvStore::new();
    kv.set(s("k"), s("v"), None, 10).unwrap();
    assert_eq!(read_string(&mut kv, "k", 10), Some(s("v")));
    assert_eq!(read_string(&mut kv, "k", 1_000_000_000), Some(s("v")));
}

#[test]
fn law_get_with_expiry_readable_until_the_expiry() {
    let mut kv = KvStore::new();
    kv.set(s("other"), s("x"), Some(vec![SetOptions::EX(s("100"))]), 0).unwrap();
    kv.set(s("k"), s("v"), Some(vec![SetOptions::EX(s("2"))]), 1000).unwrap();
    assert_eq!(read_string(&mut kv, "k", 1000), Some(s("v")));
    assert_eq!(read_string(&mut kv, "k", 3000), Some(s("v")));
    assert_eq!(read_string(&mut kv, "k", 3001), None);
}

#[test]
fn law_rpush_appends_in_order() {
    let mut kv = KvStore::new();
    kv.push(s("l"), strings(&["a"]), PushType::Right).unwrap();
    let n = kv.push(s("l"), strings(&["b", "c"]), PushType::Right).unwrap();
    assert_eq!(n, 3);
    assert_eq!(kv.lrange(s("l"), 0, -1).unwrap(), strings(&["a", "b", "c"]));
}

#[test]
fn law_lpush_prepends_reversed() {
    let mut kv = KvStore::new();
    kv.push(s("l"), strings(&["z"]), PushType::Right).unwrap();
    let n = kv.push(s("l"), strings(&["a", "b", "c"]), PushType::Left).unwrap();
    assert_eq!(n, 4);
    assert_eq!(kv.lrange(s("l"), 0, -1).unwrap(), strings(&["c", "b", "a", "z"]));
}

#[test]
fn law_lrange_whole_list_is_the_list() {
    let mut kv = KvStore::new();
    kv.push(s("l"), strings(&["p", "q", "r"]), PushType::Right).unwrap();
    assert_eq!(kv.lrange(s("l"), 0, -1).unwrap(), strings(&["p", "q", "r"]));
    assert_eq!(kv.llen(s("l"), 0).unwrap(), Some(3));
}

#[test]
fn law_lpop_after_rpush_is_first_in_first_out() {
    let mut kv = KvStore::new();
    kv.push(s("l"), strings(&["1", "2", "3"]), PushType::Right).unwrap();
    assert_eq!(kv.lpop(s("l"), 2).unwrap(), strings(&["1", "2"]));
    assert_eq!(kv.lpop(s("l"), 2).unwrap(), strings(&["3"]));
}

#[test]
fn law_push_serves_waiters_first() {
    let mut kv = KvStore::new();
    let mut rx = match kv.blpop(s("l"), 100).unwrap() {
        BlpopStart::Waiting(rx) => rx,
        BlpopStart::Ready(_) => panic!("expected to wait"),
    };
    let n = kv.push(s("l"), strings(&["a", "b", "c"]), PushType::Left).unwrap();
    assert_eq!(rx.try_recv().unwrap(), strings(&["l", "a"]));
    assert_eq!(n, 2);
    assert_eq!(kv.lrange(s("l"), 0, -1).unwrap(), strings(&["c", "b"]));
}

#[test]
fn law_remove_undoes_insert() {
    let mut store = Store::new();
    store.insert(s("keep"), StoredVal { val: RedisValue::StringVal(s("1")), expiry: None }, None);
    store.insert(s("k"), StoredVal { val: RedisValue::StringVal(s("2")), expiry: None }, None);
    store.remove(&s("k"));
    assert!(store.kv.get("k").is_none());
    assert!(store.kv.get("keep").is_some());
    assert!(store.keys_with_expiry.is_empty());
}

#[test]
fn law_parse_request_gives_back_the_arguments() {
    let items = ["echo", "Hello World", "", "ünïcode"];
    let mut req = format!("*{}\r\n", items.len()).into_bytes();
    for it in items {
        req.extend_from_slice(format!("${}\r\n{}\r\n", it.len(), it).as_bytes());
    }
    let mut pos: usize = 1;
    let r = parse_resp_array(&mut req, &mut pos).unwrap();
    assert_eq!(r, strings(&["ECHO", "Hello World", "", "ünïcode"]));
    assert_eq!(pos, req.len());
}

#[test]
fn law_bulk_answer_parses_back() {
    for text in ["", "hey", "two words", "ü"] {
        let mut out = resp_serializer(RedisResponse::BulkString(s(text))).into_bytes();
        let mut pos: usize = 1;
        let r = parse_bulk_string(&mut out, &mut pos).unwrap();
        assert_eq!(r, text);
        assert_eq!(pos, out.len());
    }
}

fn lookup<'a>(node: &'a StreamNode, id: &str) -> Option<&'a HashMap<String, String>> {
    for c in &node.children {
        if id.starts_with(c.prefix.as_str()) && !c.prefix.is_empty() {
            let rest = &id[c.prefix.len()..];
            return if rest.is_empty() { Some(&c.data) } else { lookup(c, rest) };
        }
    }
    None
}

#[test]
fn law_stream_insert_then_lookup() {
    let mut st = Stream::new();
    let ids = ["1526919030474-0", "1526919030474-1", "1526919030475-0", "2-0", "1526919030474-0"];
    for (i, id) in ids.iter().enumerate() {
        let mut d = HashMap::new();
        d.insert(s("n"), i.to_string());
        st.insert(s(id), Some(d.clone()));
        assert_eq!(lookup(&st.root, id), Some(&d));
        assert_eq!(st.last_id, *id);
    }
    let mut first = HashMap::new();
    first.insert(s("n"), s("4"));
    assert_eq!(lookup(&st.root, "1526919030474-0"), Some(&first));
}

#[test]
fn law_parse_request_reads_exactly_the_request_when_more_follows() {
    let mut req = b"*2\r\n$4\r\necho\r\n$2\r\nhi\r\n".to_vec();
    let first_len = req.len();
    req.extend_from_slice(b"*1\r\n$4\r\nPING\r\n");
    let mut pos: usize = 1;
    let r = parse_resp_array(&mut req, &mut pos).unwrap();
    assert_eq!(r, strings(&["ECHO", "hi"]));
    assert_eq!(pos, first_len);
}

#[test]
fn law_bulk_answer_parses_back_when_more_follows() {
    let mut out = resp_serializer(RedisResponse::BulkString(s("abc"))).into_bytes();
    let first_len = out.len();
    out.extend_from_slice(b"$1\r\nx\r\n");
    let mut pos: usize = 1;
    assert_eq!(parse_bulk_string(&mut out, &mut pos).unwrap(), "abc");
    assert_eq!(pos, first_len);
}

#[test]
fn law_cut_request_waits_for_the_rest() {
    let whole = b"*2\r\n$4\r\necho\r\n$12\r\nHello World!\r\n".to_vec();
    for cut in [1usize, 2, 3, 4, 5, 7, 12, 13, 14, 16, 18] {
        let mut kv = KvStore::new();
        let mut acc = whole[..cut].to_vec();
        let step = handle_read(&mut acc, cut, &mut kv, 0);
        assert!(step.response.is_none() && step.error.is_none() && !step.aborted);
        assert_eq!(acc, whole[..cut].to_vec());
        acc.extend_from_slice(&whole[cut..]);
        let step = handle_read(&mut acc, whole.len() - cut, &mut kv, 0);
        assert_eq!(step.response, Some("$12\r\nHello World!\r\n".to_string()));
        assert!(acc.is_empty());
    }
}
