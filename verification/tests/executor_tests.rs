use miniredis::data_store::{KvStore, RedisValue};
use miniredis::executor::{command_executor, command_in_range, Command, CommandType, RedisResponse};
use miniredis::redis_error::RedisError;
use miniredis::resp_serializer::resp_serializer;

fn strings(v: &[&str]) -> Vec<String> {
    v.iter().map(|x| x.to_string()).collect()
}

fn run(kv: &mut KvStore, name: CommandType, args: &[&str], now: u128) -> Result<String, RedisError> {
    let command = Command { command_name: name, command_args: strings(args) };
    assert!(command_in_range(&command, kv, now));
    command_executor(command, kv, now).map(resp_serializer)
}

#[test]
fn ping_answers_pong() {
    let mut kv = KvStore::new();
    assert_eq!(run(&mut kv, CommandType::PING, &["PING"], 0).unwrap(), "+PONG\r\n");
}

#[test]
fn echo_answers_its_argument() {
    let mut kv = KvStore::new();
    assert_eq!(run(&mut kv, CommandType::ECHO, &["ECHO", "hey"], 0).unwrap(), "$3\r\nhey\r\n");
}

#[test]
fn set_then_get() {
    let mut kv = KvStore::new();
    assert_eq!(run(&mut kv, CommandType::SET, &["SET", "k", "v"], 0).unwrap(), "+OK\r\n");
    assert_eq!(run(&mut kv, CommandType::GET, &["GET", "k"], 0).unwrap(), "$1\r\nv\r\n");
    assert_eq!(run(&mut kv, CommandType::GET, &["GET", "nope"], 0).unwrap(), "$-1\r\n");
}

#[test]
fn set_with_px_expires() {
    let mut kv = KvStore::new();
    run(&mut kv, CommandType::SET, &["SET", "k", "v", "PX", "100"], 1000).unwrap();
    run(&mut kv, CommandType::SET, &["SET", "j", "w", "EX", "1"], 1000).unwrap();
    assert_eq!(run(&mut kv, CommandType::GET, &["GET", "k"], 1100).unwrap(), "$1\r\nv\r\n");
    assert_eq!(run(&mut kv, CommandType::GET, &["GET", "k"], 1101).unwrap(), "$-1\r\n");
    assert_eq!(run(&mut kv, CommandType::GET, &["GET", "j"], 2000).unwrap(), "$1\r\nw\r\n");
}

#[test]
fn set_option_errors() {
    let mut kv = KvStore::new();
    match run(&mut kv, CommandType::SET, &["SET", "k", "v", "EX"], 0) {
        Err(RedisError::MissingArumentForOption(c, o)) => assert_eq!((c.as_str(), o.as_str()), ("SET", "EX")),
        other => panic!("unexpected: {:?}", other),
    }
    match run(&mut kv, CommandType::SET, &["SET", "k", "v", "NX", "1"], 0) {
        Err(RedisError::UnrecognizedCommandOption(c, o)) => assert_eq!((c.as_str(), o.as_str()), ("SET", "NX")),
        other => panic!("unexpected: {:?}", other),
    }
    assert_eq!(run(&mut kv, CommandType::SET, &["SET", "k", "v", "EX", "soon"], 0).unwrap(), "+OK\r\n");
    match run(&mut kv, CommandType::SET, &["SET", "k"], 0) {
        Err(RedisError::CommandMissingRequiredArguments(c, got, expect)) => {
            assert_eq!((c.as_str(), got, expect), ("SET", 1, 2))
        }
        other => panic!("unexpected: {:?}", other),
    }
    assert_eq!(run(&mut kv, CommandType::GET, &["GET", "k"], 0).unwrap(), "$-1\r\n");
}

#[test]
fn get_without_key_is_refused() {
    let mut kv = KvStore::new();
    match run(&mut kv, CommandType::GET, &["GET"], 0) {
        Err(RedisError::CommandMissingRequiredArguments(c, got, expect)) => {
            assert_eq!((c.as_str(), got, expect), ("GET", 0, 1))
        }
        other => panic!("unexpected: {:?}", other),
    }
}

#[test]
fn get_of_a_list_answers_null() {
    let mut kv = KvStore::new();
    run(&mut kv, CommandType::RPUSH, &["RPUSH", "l", "a"], 0).unwrap();
    assert_eq!(run(&mut kv, CommandType::GET, &["GET", "l"], 0).unwrap(), "$-1\r\n");
}

#[test]
fn rpush_and_lpush_answer_the_new_length() {
    let mut kv = KvStore::new();
    assert_eq!(run(&mut kv, CommandType::RPUSH, &["RPUSH", "l", "a", "b"], 0).unwrap(), ":2\r\n");
    assert_eq!(run(&mut kv, CommandType::LPUSH, &["LPUSH", "l", "c"], 0).unwrap(), ":3\r\n");
    assert_eq!(
        run(&mut kv, CommandType::LRANGE, &["LRANGE", "l", "0", "-1"], 0).unwrap(),
        "*3\r\n$1\r\nc\r\n$1\r\na\r\n$1\r\nb\r\n"
    );
    match run(&mut kv, CommandType::RPUSH, &["RPUSH"], 0) {
        Err(RedisError::CommandMissingRequiredArguments(_, got, expect)) => assert_eq!((got, expect), (0, 1)),
        other => panic!("unexpected: {:?}", other),
    }
    match run(&mut kv, CommandType::LPUSH, &["LPUSH"], 0) {
        Err(RedisError::CommandMissingRequiredArguments(_, got, expect)) => assert_eq!((got, expect), (0, 1)),
        other => panic!("unexpected: {:?}", other),
    }
}

#[test]
fn rpush_onto_a_string_is_refused() {
    let mut kv = KvStore::new();
    run(&mut kv, CommandType::SET, &["SET", "s", "v"], 0).unwrap();
    match run(&mut kv, CommandType::RPUSH, &["RPUSH", "s", "a"], 0) {
        Err(RedisError::WrongType(m)) => assert!(m.starts_with("Key: s already exists")),
        other => panic!("unexpected: {:?}", other),
    }
}

#[test]
fn lrange_argument_errors() {
    let mut kv = KvStore::new();
    match run(&mut kv, CommandType::LRANGE, &["LRANGE", "l", "x", "1"], 0) {
        Err(RedisError::WrongType(m)) => {
            assert_eq!(m, "LRANGE command argument 2 (start): x cannot be parsed as an integer")
        }
        other => panic!("unexpected: {:?}", other),
    }
    match run(&mut kv, CommandType::LRANGE, &["LRANGE", "l", "0", "y"], 0) {
        Err(RedisError::WrongType(m)) => {
            assert_eq!(m, "LRANGE command arument 3 (stop): y cannot be parsed as an integer")
        }
        other => panic!("unexpected: {:?}", other),
    }
    match run(&mut kv, CommandType::LRANGE, &["LRANGE", "l", "0"], 0) {
        Err(RedisError::CommandMissingRequiredArguments(_, got, expect)) => assert_eq!((got, expect), (2, 3)),
        other => panic!("unexpected: {:?}", other),
    }
    assert_eq!(run(&mut kv, CommandType::LRANGE, &["LRANGE", "none", "0", "5"], 0).unwrap(), "*0\r\n");
}

#[test]
fn commands_outside_the_domain_are_told_apart() {
    let kv = KvStore::new();
    let no_name = Command { command_name: CommandType::PING, command_args: Vec::new() };
    assert!(!command_in_range(&no_name, &kv, 0));
    let echo = Command { command_name: CommandType::ECHO, command_args: strings(&["ECHO"]) };
    assert!(!command_in_range(&echo, &kv, 0));
    let set = Command { command_name: CommandType::SET, command_args: strings(&["SET", "k", "v"]) };
    assert!(!command_in_range(&set, &kv, u128::MAX));
    assert!(command_in_range(&set, &kv, 0));
}

#[test]
fn serializer_writes_every_answer() {
    assert_eq!(resp_serializer(RedisResponse::SimpleString("OK".to_string())), "+OK\r\n");
    assert_eq!(resp_serializer(RedisResponse::BulkString("héllo".to_string())), "$6\r\nhéllo\r\n");
    assert_eq!(resp_serializer(RedisResponse::BulkString(String::new())), "$0\r\n\r\n");
    assert_eq!(resp_serializer(RedisResponse::NullBulkString), "$-1\r\n");
    assert_eq!(resp_serializer(RedisResponse::Integer(-7)), ":-7\r\n");
    assert_eq!(resp_serializer(RedisResponse::BulkStringArray(Vec::new())), "*0\r\n");
    assert_eq!(
        resp_serializer(RedisResponse::BulkStringArray(strings(&["a", "bc"]))),
        "*2\r\n$1\r\na\r\n$2\r\nbc\r\n"
    );
}

#[test]
fn executor_leaves_lists_in_the_store() {
    let mut kv = KvStore::new();
    run(&mut kv, CommandType::RPUSH, &["RPUSH", "l", "a"], 0).unwrap();
    match kv.get("l".to_string(), 0) {
        Some(RedisValue::ListVal(l)) => assert_eq!(l.len(), 1),
        _ => panic!("expected a list"),
    }
}
