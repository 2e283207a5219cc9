use miniredis::redis_error::RedisError;

fn s(x: &str) -> String {
    x.to_string()
}

#[test]
fn unknown_type_text() {
    assert_eq!(
        RedisError::UnknownRESPDataType(4, s("abc"), None).to_string(),
        "Unknown RESP data type at position 4 in: abc"
    );
    assert_eq!(
        RedisError::UnknownRESPDataType(4, s("abc"), Some(s("Bad type"))).to_string(),
        "Bad type in: abc at 4"
    );
}

#[test]
fn malformed_request_text() {
    assert_eq!(
        RedisError::MalformedRequest(-3, s("x"), None).to_string(),
        "Malformed RESP request at position -3 in: x"
    );
    assert_eq!(
        RedisError::MalformedRequest(12, s("x"), Some(s("Bad"))).to_string(),
        "Bad in: x at 12"
    );
}

#[test]
fn invalid_integer_text() {
    assert_eq!(
        RedisError::InvalidInteger(s("*x"), s("x"), None).to_string(),
        "Invalid Integer in RESP request at position x in: *x"
    );
    assert_eq!(
        RedisError::InvalidInteger(s("*x"), s("x"), Some(s("Not a number"))).to_string(),
        "Not a number at: x in *x"
    );
}

#[test]
fn out_of_bytes_text() {
    assert_eq!(
        RedisError::OutOfBytes(s("*2"), None).to_string(),
        "Reached end of bytes in accumulator without hitting the end of the command: *2"
    );
    assert_eq!(
        RedisError::OutOfBytes(s("*2"), Some(s("Short"))).to_string(),
        "Short: As a string, the bytes read were: *2"
    );
}

#[test]
fn command_error_texts() {
    assert_eq!(
        RedisError::UnimplementedCommandType(s("FOO")).to_string(),
        "Received Unimplemented RESP command: FOO"
    );
    assert_eq!(
        RedisError::MissingArumentForOption(s("SET"), s("EX")).to_string(),
        "SET command has option EX specified but is missing a value for this option"
    );
    assert_eq!(
        RedisError::CommandMissingRequiredArguments(s("SET"), 1, 2).to_string(),
        "SET command received 1 argument(s) but expected 2 argument(s)"
    );
    assert_eq!(
        RedisError::UnrecognizedCommandOption(s("SET"), s("NX")).to_string(),
        "SET command received unrecognized option NX"
    );
    assert_eq!(
        RedisError::InvalidArgumentForCommandOption(s("SET"), s("EX"), s("abc"), s("Integer"))
            .to_string(),
        "SET command option EX expects an Integer got value: abc which cannot be parsed as an Integer"
    );
    assert_eq!(RedisError::WrongType(s("Key: k is a string")).to_string(), "Key: k is a string");
}

#[test]
fn io_error_text_is_the_io_error_message() {
    let e = RedisError::IoError(std::io::Error::other("Receiver dropped for BLPOP operation"));
    assert_eq!(e.to_string(), "Receiver dropped for BLPOP operation");
}
