use miniredis::connection::handle_read;
use miniredis::data_store::{KvStore, RedisValue};
use miniredis::redis_error::RedisError;

fn bytes(s: &str) -> Vec<u8> {
    s.as_bytes().to_vec()
}

#[test]
fn a_request_that_is_not_an_array_is_logged_and_kept() {
    let mut kv = KvStore::new();
    let mut acc = bytes("PING\r\n");
    let step = handle_read(&mut acc, 6, &mut kv, 0);
    assert_eq!(
        step.log_lines,
        vec!["RESP Commands are expected to begin with '*' and hence be RESP arrays in: PING\r\n at 0, RESP Commands are expected to begin with '*'".to_string()]
    );
    assert!(step.response.is_none());
    assert!(step.error.is_none());
    assert!(!step.aborted);
    assert_eq!(acc, bytes("PING\r\n"));
}

#[test]
fn only_the_last_read_is_quoted_for_a_request_that_is_not_an_array() {
    let mut kv = KvStore::new();
    let mut acc = bytes("XYZ");
    let step = handle_read(&mut acc, 2, &mut kv, 0);
    assert_eq!(
        step.log_lines,
        vec!["RESP Commands are expected to begin with '*' and hence be RESP arrays in: XY at 0, RESP Commands are expected to begin with '*'".to_string()]
    );
}

#[test]
fn a_whole_request_is_answered_and_the_buffer_cleared() {
    let mut kv = KvStore::new();
    let mut acc = bytes("*1\r\n$4\r\nping\r\n");
    let n = acc.len();
    let step = handle_read(&mut acc, n, &mut kv, 0);
    assert_eq!(step.log_lines, vec!["Registered PING command".to_string()]);
    assert_eq!(step.response, Some("+PONG\r\n".to_string()));
    assert!(step.error.is_none());
    assert!(!step.aborted);
    assert!(acc.is_empty());
}

#[test]
fn set_then_get_across_requests() {
    let mut kv = KvStore::new();
    let mut acc = bytes("*3\r\n$3\r\nset\r\n$1\r\nk\r\n$2\r\nhi\r\n");
    let n = acc.len();
    let step = handle_read(&mut acc, n, &mut kv, 0);
    assert_eq!(step.response, Some("+OK\r\n".to_string()));
    match kv.get("k".to_string(), 0) {
        Some(RedisValue::StringVal(v)) => assert_eq!(v, "hi"),
        _ => panic!("expected the stored string"),
    }
    let mut acc = bytes("*2\r\n$3\r\nGET\r\n$1\r\nk\r\n");
    let n = acc.len();
    let step = handle_read(&mut acc, n, &mut kv, 0);
    assert_eq!(step.log_lines, vec!["Registered GET command".to_string()]);
    assert_eq!(step.response, Some("$2\r\nhi\r\n".to_string()));
}

#[test]
fn an_incomplete_request_stays_in_the_buffer() {
    let mut kv = KvStore::new();
    let mut acc = bytes("*2\r\n$4\r\nECHO\r\n");
    let n = acc.len();
    let step = handle_read(&mut acc, n, &mut kv, 0);
    assert_eq!(
        step.log_lines,
        vec!["Out of Bytes Error: Reached end of bytes read from buffer into accumulator before processing expected number of RESP array elements (2): Read the following bytes as a string: *2\r\n$4\r\nECHO\r\n".to_string()]
    );
    assert!(step.response.is_none());
    assert!(step.error.is_none());
    assert!(!step.aborted);
    assert_eq!(acc, bytes("*2\r\n$4\r\nECHO\r\n"));
    acc.extend_from_slice(b"$2\r\nhi\r\n");
    let step = handle_read(&mut acc, 8, &mut kv, 0);
    assert_eq!(step.response, Some("$2\r\nhi\r\n".to_string()));
    assert!(acc.is_empty());
}

#[test]
fn a_parse_error_ends_the_connection_and_clears_the_buffer() {
    let mut kv = KvStore::new();
    let mut acc = bytes("*x\r\n");
    let step = handle_read(&mut acc, 4, &mut kv, 0);
    assert_eq!(
        step.log_lines,
        vec![
            "Invalid Integer Error: Expected an integer but received non-integer string in place denoting number of elements in RESP array at: x in *x\r\n".to_string(),
            "Clearing accumulator".to_string(),
        ]
    );
    assert!(matches!(step.error, Some(RedisError::InvalidInteger(_, _, _))));
    assert!(acc.is_empty());
}

#[test]
fn an_unserved_command_is_refused() {
    let mut kv = KvStore::new();
    let mut acc = bytes("*2\r\n$5\r\nlpush\r\n$1\r\nl\r\n");
    let n = acc.len();
    let step = handle_read(&mut acc, n, &mut kv, 0);
    assert_eq!(
        step.log_lines,
        vec![
            "Registered LPUSH command".to_string(),
            "Received Unimplemented RESP command: LPUSH".to_string(),
        ]
    );
    match step.error {
        Some(RedisError::UnimplementedCommandType(name)) => assert_eq!(name, "LPUSH"),
        other => panic!("unexpected: {:?}", other),
    }
    assert!(acc.is_empty());
}

#[test]
fn an_empty_request_has_no_command_name() {
    let mut kv = KvStore::new();
    let mut acc = bytes("*0\r\n");
    let step = handle_read(&mut acc, 4, &mut kv, 0);
    assert!(step.log_lines.is_empty());
    match step.error {
        Some(RedisError::MalformedRequest(0, text, Some(msg))) => {
            assert_eq!(text, "");
            assert_eq!(msg, "Malformed Request Error: RESP Command lacks command name");
        }
        other => panic!("unexpected: {:?}", other),
    }
}

#[test]
fn a_command_error_is_logged_and_returned() {
    let mut kv = KvStore::new();
    let mut acc = bytes("*2\r\n$3\r\nset\r\n$1\r\nk\r\n");
    let n = acc.len();
    let step = handle_read(&mut acc, n, &mut kv, 0);
    assert_eq!(
        step.log_lines,
        vec![
            "Registered SET command".to_string(),
            "SET command received 1 argument(s) but expected 2 argument(s)".to_string(),
        ]
    );
    assert!(matches!(step.error, Some(RedisError::CommandMissingRequiredArguments(_, 1, 2))));
    assert!(step.response.is_none());
}

#[test]
fn requests_outside_the_domain_abort() {
    let mut kv = KvStore::new();
    let mut acc = bytes("*1\r\n$4\r\necho\r\n");
    let n = acc.len();
    let step = handle_read(&mut acc, n, &mut kv, 0);
    assert!(step.aborted);
    assert_eq!(step.log_lines, vec!["Registered ECHO command".to_string()]);
    let mut acc = bytes("*1\r\n$10\r\nab\r\n");
    let n = acc.len();
    let step = handle_read(&mut acc, n, &mut kv, 0);
    assert!(step.aborted);
    assert!(step.log_lines.is_empty());
}
