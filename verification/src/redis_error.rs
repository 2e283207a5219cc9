//! The errors of the server and the text that each one is shown as.

use vstd::prelude::*;
use crate::decimal::{i32_to_decimal, signed_decimal_chars};

verus! {

/// `std::io::Error`, carried by `RedisError::IoError`.
#[verifier::external_type_specification]
#[verifier::external_body]
pub struct ExIoError(std::io::Error);

#[derive(Debug)]
pub enum RedisError {
    IoError(std::io::Error),
    UnknownRESPDataType(i32, String, Option<String>),
    MalformedRequest(i32, String, Option<String>),
    InvalidInteger(String, String, Option<String>),
    OutOfBytes(String, Option<String>),
    UnimplementedCommandType(String),
    MissingArumentForOption(String, String),
    CommandMissingRequiredArguments(String, i32, i32),
    UnrecognizedCommandOption(String, String),
    InvalidArgumentForCommandOption(String, String, String, String),
    WrongType(String),
}

/// `RedisError` with its texts as character sequences; the I/O error itself
/// is left out.
pub enum RedisErrorView {
    IoError,
    UnknownRESPDataType(i32, Seq<char>, Option<Seq<char>>),
    MalformedRequest(i32, Seq<char>, Option<Seq<char>>),
    InvalidInteger(Seq<char>, Seq<char>, Option<Seq<char>>),
    OutOfBytes(Seq<char>, Option<Seq<char>>),
    UnimplementedCommandType(Seq<char>),
    MissingArumentForOption(Seq<char>, Seq<char>),
    CommandMissingRequiredArguments(Seq<char>, i32, i32),
    UnrecognizedCommandOption(Seq<char>, Seq<char>),
    InvalidArgumentForCommandOption(Seq<char>, Seq<char>, Seq<char>, Seq<char>),
    WrongType(Seq<char>),
}

/// The characters of an optional text.
pub open spec fn opt_text(o: Option<String>) -> Option<Seq<char>> {
    match o {
        Some(s) => Some(s@),
        None => None,
    }
}

impl View for RedisError {
    type V = RedisErrorView;

    open spec fn view(&self) -> RedisErrorView {
        match self {
            RedisError::IoError(_) => RedisErrorView::IoError,
            RedisError::UnknownRESPDataType(p, s, m) => RedisErrorView::UnknownRESPDataType(
                *p,
                s@,
                opt_text(*m),
            ),
            RedisError::MalformedRequest(p, s, m) => RedisErrorView::MalformedRequest(
                *p,
                s@,
                opt_text(*m),
            ),
            RedisError::InvalidInteger(s, l, m) => RedisErrorView::InvalidInteger(
                s@,
                l@,
                opt_text(*m),
            ),
            RedisError::OutOfBytes(s, m) => RedisErrorView::OutOfBytes(s@, opt_text(*m)),
            RedisError::UnimplementedCommandType(s) => RedisErrorView::UnimplementedCommandType(s@),
            RedisError::MissingArumentForOption(c, o) => RedisErrorView::MissingArumentForOption(
                c@,
                o@,
            ),
            RedisError::CommandMissingRequiredArguments(c, g, e) =>
                RedisErrorView::CommandMissingRequiredArguments(c@, *g, *e),
            RedisError::UnrecognizedCommandOption(c, o) => RedisErrorView::UnrecognizedCommandOption(
                c@,
                o@,
            ),
            RedisError::InvalidArgumentForCommandOption(c, o, g, t) =>
                RedisErrorView::InvalidArgumentForCommandOption(c@, o@, g@, t@),
            RedisError::WrongType(s) => RedisErrorView::WrongType(s@),
        }
    }
}

/// The text that an error is shown as (for every error but an I/O error,
/// whose text comes from the operating system).
pub open spec fn error_text(e: RedisErrorView) -> Seq<char> {
    match e {
        RedisErrorView::IoError => Seq::empty(),
        RedisErrorView::UnknownRESPDataType(pos, s, msg) => match msg {
            Some(m) => m + " in: "@ + s + " at "@ + signed_decimal_chars(pos as int),
            None => "Unknown RESP data type at position "@ + signed_decimal_chars(pos as int)
                + " in: "@ + s,
        },
        RedisErrorView::MalformedRequest(pos, s, msg) => match msg {
            Some(m) => m + " in: "@ + s + " at "@ + signed_decimal_chars(pos as int),
            None => "Malformed RESP request at position "@ + signed_decimal_chars(pos as int)
                + " in: "@ + s,
        },
        RedisErrorView::InvalidInteger(s, loc, msg) => match msg {
            Some(m) => m + " at: "@ + loc + " in "@ + s,
            None => "Invalid Integer in RESP request at position "@ + loc + " in: "@ + s,
        },
        RedisErrorView::OutOfBytes(s, msg) => match msg {
            Some(m) => m + ": As a string, the bytes read were: "@ + s,
            None => "Reached end of bytes in accumulator without hitting the end of the command: "@
                + s,
        },
        RedisErrorView::UnimplementedCommandType(s) => "Received Unimplemented RESP command: "@ + s,
        RedisErrorView::MissingArumentForOption(cmd, opt) => cmd + " command has option "@ + opt
            + " specified but is missing a value for this option"@,
        RedisErrorView::CommandMissingRequiredArguments(cmd, got, expect) => cmd
            + " command received "@ + signed_decimal_chars(got as int) + " argument(s) but expected "@
            + signed_decimal_chars(expect as int) + " argument(s)"@,
        RedisErrorView::UnrecognizedCommandOption(cmd, opt) => cmd
            + " command received unrecognized option "@ + opt,
        RedisErrorView::InvalidArgumentForCommandOption(cmd, opt, got, ty) => cmd
            + " command option "@ + opt + " expects an "@ + ty + " got value: "@ + got
            + " which cannot be parsed as an "@ + ty,
        RedisErrorView::WrongType(s) => s,
    }
}

/// Calls `Display` of `std::io::Error`; its text comes from the operating
/// system and nothing is stated of it.
#[verifier::external_body]
fn io_error_text(e: &std::io::Error) -> String {
    format!("{}", e)
}

/// Calls `std::io::Error::other`, which makes an error of kind `Other`
/// carrying `msg`; nothing is stated of the value.
#[verifier::external_body]
pub(crate) fn io_error_other(msg: &str) -> std::io::Error {
    std::io::Error::other(msg.to_string())
}

impl RedisError {
    /// The text of the error, as the server logs and prints it.
    pub fn to_string(&self) -> (r: String)
        ensures
            !(self@ is IoError) ==> r@ == error_text(self@),
    {
        let mut r = String::new();
        match self {
            RedisError::IoError(e) => {
                return io_error_text(e);
            },
            RedisError::UnknownRESPDataType(pos, s, msg) => {
                match msg {
                    Some(m) => {
                        r.append(m.as_str());
                        r.append(" in: ");
                        r.append(s.as_str());
                        r.append(" at ");
                        r.append(i32_to_decimal(*pos).as_str());
                    },
                    None => {
                        r.append("Unknown RESP data type at position ");
                        r.append(i32_to_decimal(*pos).as_str());
                        r.append(" in: ");
                        r.append(s.as_str());
                    },
                }
            },
            RedisError::MalformedRequest(pos, s, msg) => {
                match msg {
                    Some(m) => {
                        r.append(m.as_str());
                        r.append(" in: ");
                        r.append(s.as_str());
                        r.append(" at ");
                        r.append(i32_to_decimal(*pos).as_str());
                    },
                    None => {
                        r.append("Malformed RESP request at position ");
                        r.append(i32_to_decimal(*pos).as_str());
                        r.append(" in: ");
                        r.append(s.as_str());
                    },
                }
            },
            RedisError::InvalidInteger(s, loc, msg) => {
                match msg {
                    Some(m) => {
                        r.append(m.as_str());
                        r.append(" at: ");
                        r.append(loc.as_str());
                        r.append(" in ");
                        r.append(s.as_str());
                    },
                    None => {
                        r.append("Invalid Integer in RESP request at position ");
                        r.append(loc.as_str());
                        r.append(" in: ");
                        r.append(s.as_str());
                    },
                }
            },
            RedisError::OutOfBytes(s, msg) => {
                match msg {
                    Some(m) => {
                        r.append(m.as_str());
                        r.append(": As a string, the bytes read were: ");
                        r.append(s.as_str());
                    },
                    None => {
                        r.append(
                            "Reached end of bytes in accumulator without hitting the end of the command: ",
                        );
                        r.append(s.as_str());
                    },
                }
            },
            RedisError::UnimplementedCommandType(s) => {
                r.append("Received Unimplemented RESP command: ");
                r.append(s.as_str());
            },
            RedisError::MissingArumentForOption(cmd, opt) => {
                r.append(cmd.as_str());
                r.append(" command has option ");
                r.append(opt.as_str());
                r.append(" specified but is missing a value for this option");
            },
            RedisError::CommandMissingRequiredArguments(cmd, got, expect) => {
                r.append(cmd.as_str());
                r.append(" command received ");
                r.append(i32_to_decimal(*got).as_str());
                r.append(" argument(s) but expected ");
                r.append(i32_to_decimal(*expect).as_str());
                r.append(" argument(s)");
            },
            RedisError::UnrecognizedCommandOption(cmd, opt) => {
                r.append(cmd.as_str());
                r.append(" command received unrecognized option ");
                r.append(opt.as_str());
            },
            RedisError::InvalidArgumentForCommandOption(cmd, opt, got, ty) => {
                r.append(cmd.as_str());
                r.append(" command option ");
                r.append(opt.as_str());
                r.append(" expects an ");
                r.append(ty.as_str());
                r.append(" got value: ");
                r.append(got.as_str());
                r.append(" which cannot be parsed as an ");
                r.append(ty.as_str());
            },
            RedisError::WrongType(s) => {
                r.append(s.as_str());
            },
        }
        r
    }
}

} // verus!
