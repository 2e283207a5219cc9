use miniredis::parser::{bulk_string_overruns, parse_bulk_string, parse_resp_array, resp_array_overruns};
use miniredis::redis_error::RedisError;

fn bytes(s: &str) -> Vec<u8> {
    s.as_bytes().to_vec()
}

fn strings(v: &[&str]) -> Vec<String> {
    v.iter().map(|s| s.to_string()).collect()
}

#[test]
fn parses_echo_request_and_upper_cases_the_name() {
    let mut acc = bytes("*2\r\n$4\r\necho\r\n$3\r\nhey\r\n");
    let mut pos: usize = 1;
    let r = parse_resp_array(&mut acc, &mut pos).unwrap();
    assert_eq!(r, strings(&["ECHO", "hey"]));
    assert_eq!(pos, acc.len());
    assert_eq!(acc, bytes("*2\r\n$4\r\necho\r\n$3\r\nhey\r\n"));
}

#[test]
fn only_the_command_name_is_upper_cased() {
    let mut acc = bytes("*3\r\n$3\r\nset\r\n$3\r\nkey\r\n$5\r\nValue\r\n");
    let mut pos: usize = 1;
    let r = parse_resp_array(&mut acc, &mut pos).unwrap();
    assert_eq!(r, strings(&["SET", "key", "Value"]));
}

#[test]
fn empty_array_parses_to_no_arguments() {
    let mut acc = bytes("*0\r\n");
    let mut pos: usize = 1;
    let r = parse_resp_array(&mut acc, &mut pos).unwrap();
    assert!(r.is_empty());
    assert_eq!(pos, 4);
}

#[test]
fn count_with_plus_sign_is_accepted() {
    let mut acc = bytes("*+1\r\n$4\r\nping\r\n");
    let mut pos: usize = 1;
    let r = parse_resp_array(&mut acc, &mut pos).unwrap();
    assert_eq!(r, strings(&["PING"]));
}

#[test]
fn missing_elements_are_out_of_bytes() {
    let mut acc = bytes("*2\r\n$4\r\nECHO\r\n");
    let mut pos: usize = 1;
    match parse_resp_array(&mut acc, &mut pos) {
        Err(RedisError::OutOfBytes(text, Some(msg))) => {
            assert_eq!(text, "*2\r\n$4\r\nECHO\r\n");
            assert_eq!(
                msg,
                "Out of Bytes Error: Reached end of bytes read from buffer into accumulator before processing expected number of RESP array elements (2)"
            );
        }
        other => panic!("unexpected: {:?}", other),
    }
    assert_eq!(pos, 14);
}

#[test]
fn count_without_crlf_is_out_of_bytes() {
    let mut acc = bytes("*2");
    let mut pos: usize = 1;
    match parse_resp_array(&mut acc, &mut pos) {
        Err(RedisError::OutOfBytes(text, Some(msg))) => {
            assert_eq!(text, "*2");
            assert_eq!(
                msg,
                "Out of Bytes Error: Reached end of command read from buffer before hitting a terminal CRLF, will try to read more bytes"
            );
        }
        other => panic!("unexpected: {:?}", other),
    }
    assert_eq!(pos, 1);
}

#[test]
fn non_numeric_count_is_invalid_integer() {
    let mut acc = bytes("*x\r\n");
    let mut pos: usize = 1;
    match parse_resp_array(&mut acc, &mut pos) {
        Err(RedisError::InvalidInteger(text, loc, Some(msg))) => {
            assert_eq!(text, "*x\r\n");
            assert_eq!(loc, "x");
            assert_eq!(
                msg,
                "Invalid Integer Error: Expected an integer but received non-integer string in place denoting number of elements in RESP array"
            );
        }
        other => panic!("unexpected: {:?}", other),
    }
    assert_eq!(pos, 1);
}

#[test]
fn count_that_is_not_utf8_is_malformed() {
    let mut acc = vec![b'*', 0xff, b'\r', b'\n'];
    let mut pos: usize = 1;
    match parse_resp_array(&mut acc, &mut pos) {
        Err(RedisError::MalformedRequest(at, text, Some(msg))) => {
            assert_eq!(at, 1);
            assert_eq!(text, "*\u{FFFD}\r\n");
            assert_eq!(
                msg,
                "Malformed Request Error: Invalid UTF8 string encoded by bytes representing number of elements in RESP array"
            );
        }
        other => panic!("unexpected: {:?}", other),
    }
}

#[test]
fn element_that_is_not_a_bulk_string_is_unknown_type() {
    let mut acc = bytes("*1\r\n:5\r\n");
    let mut pos: usize = 1;
    match parse_resp_array(&mut acc, &mut pos) {
        Err(RedisError::UnknownRESPDataType(at, text, Some(msg))) => {
            assert_eq!(at, 4);
            assert_eq!(text, "1\r\n:");
            assert_eq!(
                msg,
                "Unknown RESP Data Type Error: RESP array contains an array element of invalid data type"
            );
        }
        other => panic!("unexpected: {:?}", other),
    }
    assert_eq!(pos, 4);
}

#[test]
fn bulk_string_that_is_not_utf8_is_malformed() {
    let mut acc = bytes("*1\r\n$1\r\n");
    acc.push(0xff);
    acc.extend_from_slice(b"\r\n");
    let mut pos: usize = 1;
    match parse_resp_array(&mut acc, &mut pos) {
        Err(RedisError::MalformedRequest(at, text, Some(msg))) => {
            assert_eq!(at, 8);
            assert_eq!(text, "\u{FFFD}");
            assert_eq!(
                msg,
                "Malformed Request Error: Invalid UTF8 string encoded by bytes representing RESP bulk string"
            );
        }
        other => panic!("unexpected: {:?}", other),
    }
    assert_eq!(pos, 8);
}

#[test]
fn non_numeric_bulk_length_is_invalid_integer() {
    let mut acc = bytes("*1\r\n$x\r\nab\r\n");
    let mut pos: usize = 1;
    match parse_resp_array(&mut acc, &mut pos) {
        Err(RedisError::InvalidInteger(text, loc, Some(msg))) => {
            assert_eq!(text, "*1\r\n$x\r\nab\r\n");
            assert_eq!(loc, "x");
            assert_eq!(
                msg,
                "Invalid Integer Error: Expected an integer but received non-integer string in place denoting number of elements in RESP bulk string"
            );
        }
        other => panic!("unexpected: {:?}", other),
    }
    assert_eq!(pos, 5);
}

#[test]
fn bulk_length_past_the_buffer_is_told_apart() {
    let short = bytes("*1\r\n$10\r\nab\r\n");
    assert!(resp_array_overruns(&short, 1));
    let whole = bytes("*1\r\n$2\r\nab\r\n");
    assert!(!resp_array_overruns(&whole, 1));
    let partial = bytes("*2\r\n$2\r\nab\r\n");
    assert!(!resp_array_overruns(&partial, 1));
}

#[test]
fn parses_a_bulk_string() {
    let mut acc = bytes("$3\r\nfoo\r\n");
    let mut pos: usize = 1;
    let r = parse_bulk_string(&mut acc, &mut pos).unwrap();
    assert_eq!(r, "foo");
    assert_eq!(pos, 9);
}

#[test]
fn bulk_string_keeps_its_case_and_multibyte_text() {
    let mut acc = bytes("$6\r\nhéllo\r\n");
    let mut pos: usize = 1;
    let r = parse_bulk_string(&mut acc, &mut pos).unwrap();
    assert_eq!(r, "héllo");
    assert_eq!(pos, 12);
}

#[test]
fn bulk_string_without_crlf_is_out_of_bytes() {
    let mut acc = bytes("$3");
    let mut pos: usize = 1;
    match parse_bulk_string(&mut acc, &mut pos) {
        Err(RedisError::OutOfBytes(text, Some(_))) => assert_eq!(text, "$3"),
        other => panic!("unexpected: {:?}", other),
    }
}

#[test]
fn bulk_length_that_is_not_utf8_is_malformed() {
    let mut acc = vec![b'$', 0xfe, b'\r', b'\n', b'a', b'\r', b'\n'];
    let mut pos: usize = 1;
    match parse_bulk_string(&mut acc, &mut pos) {
        Err(RedisError::MalformedRequest(at, text, Some(msg))) => {
            assert_eq!(at, 1);
            assert_eq!(text, "\u{FFFD}");
            assert_eq!(
                msg,
                "Malformed Request Error: Invalid UTF8 string encoded by bytes representing number of elements in RESP bulk string"
            );
        }
        other => panic!("unexpected: {:?}", other),
    }
}

#[test]
fn bulk_length_past_the_buffer_is_told_apart_for_a_bulk_string() {
    assert!(bulk_string_overruns(&bytes("$10\r\nab\r\n"), 1));
    assert!(!bulk_string_overruns(&bytes("$2\r\nab\r\n"), 1));
    assert!(!bulk_string_overruns(&bytes("$2"), 1));
    assert!(!bulk_string_overruns(&bytes("$x\r\nab"), 1));
}
