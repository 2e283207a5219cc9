//! What the server does with the bytes a client has sent so far: parse a
//! request, run it, and say what to log, what to answer and whether the
//! connection ends. The caller reads the socket, writes the answer and sends
//! the log lines.

use vstd::prelude::*;
use vstd::utf8::encode_utf8;
use crate::parser::{
    texts, positions_fit, resp_array_spec, ReadSpec, parse_resp_array, resp_array_overruns,
};
use crate::redis_error::{RedisError, RedisErrorView, error_text};
use crate::text::{lossy_text, utf8_lossy_string};
use crate::executor::{
    Command, CommandType, command_spec, command_ok, command_in_range, command_executor,
};
use crate::resp_serializer::{resp_serializer, resp_text};
use crate::data_store::{KvStore, StoreView, served_messages};

verus! {

/// The outcome of handling what a client has sent: lines for the log, the
/// RESP text to answer with, the error that ends the connection, and
/// whether handling stopped where the request would index past its buffer
/// or run a command outside its domain (the connection cannot go on).
pub struct RequestStep {
    pub log_lines: Vec<String>,
    pub response: Option<String>,
    pub error: Option<RedisError>,
    pub aborted: bool,
}

pub struct StepView {
    pub log_lines: Seq<Seq<char>>,
    pub response: Option<Seq<char>>,
    pub error: Option<RedisErrorView>,
    pub aborted: bool,
}

impl View for RequestStep {
    type V = StepView;

    open spec fn view(&self) -> StepView {
        StepView {
            log_lines: texts(self.log_lines@),
            response: match self.response {
                Some(r) => Some(r@),
                None => None,
            },
            error: match self.error {
                Some(e) => Some(e@),
                None => None,
            },
            aborted: self.aborted,
        }
    }
}

/// The command type a request's (upper-cased) name selects; only PING, ECHO,
/// SET, GET and RPUSH are served.
pub open spec fn command_type_of(name: Seq<char>) -> Option<CommandType> {
    if name == "PING"@ {
        Some(CommandType::PING)
    } else if name == "ECHO"@ {
        Some(CommandType::ECHO)
    } else if name == "SET"@ {
        Some(CommandType::SET)
    } else if name == "GET"@ {
        Some(CommandType::GET)
    } else if name == "RPUSH"@ {
        Some(CommandType::RPUSH)
    } else {
        None
    }
}

pub open spec fn msg_not_array() -> Seq<char> {
    "RESP Commands are expected to begin with '*' and hence be RESP arrays"@
}

pub open spec fn msg_no_command_name() -> Seq<char> {
    "Malformed Request Error: RESP Command lacks command name"@
}

pub open spec fn step(
    log_lines: Seq<Seq<char>>,
    response: Option<Seq<char>>,
    error: Option<RedisErrorView>,
    aborted: bool,
) -> StepView {
    StepView { log_lines, response, error, aborted }
}

/// Running a parsed request's arguments as a command.
pub open spec fn run_command_spec(args: Seq<Seq<char>>, s: StoreView, now: u128) -> (StepView, StoreView) {
    if args.len() == 0 {
        (
            step(
                Seq::empty(),
                None,
                Some(RedisErrorView::MalformedRequest(0, Seq::empty(), Some(msg_no_command_name()))),
                false,
            ),
            s,
        )
    } else {
        let registered = "Registered "@ + args[0] + " command"@;
        match command_type_of(args[0]) {
            None => {
                let e = RedisErrorView::UnimplementedCommandType(args[0]);
                (step(seq![registered, error_text(e)], None, Some(e), false), s)
            },
            Some(name) => if !command_ok(s, name, args, now) {
                (step(seq![registered], None, None, true), s)
            } else {
                let (r, s2) = command_spec(s, name, args, now);
                match r {
                    Ok(resp) => (step(seq![registered], Some(resp_text(resp)), None, false), s2),
                    Err(e) => (step(seq![registered, error_text(e)], None, Some(e), false), s2),
                }
            },
        }
    }
}

/// Handling the bytes `acc` after a read of `n` bytes: the step, what stays
/// in the buffer, and the store. A request is a RESP array starting at the
/// first byte; an incomplete one (out of bytes) stays in the buffer, any
/// other parse outcome empties it.
pub open spec fn handle_read_spec(acc: Seq<u8>, n: nat, s: StoreView, now: u128) -> (
    StepView,
    Seq<u8>,
    StoreView,
) {
    if acc[0] != 42u8 {
        let e = RedisErrorView::UnknownRESPDataType(
            0,
            lossy_text(acc.take(n as int)),
            Some(msg_not_array()),
        );
        (
            step(
                seq![error_text(e) + ", RESP Commands are expected to begin with '*'"@],
                None,
                None,
                false,
            ),
            acc,
            s,
        )
    } else {
        match resp_array_spec(acc, 1) {
            ReadSpec::Overrun => (step(Seq::empty(), None, None, true), acc, s),
            ReadSpec::Done(Err(RedisErrorView::OutOfBytes(text, msg)), _) => (
                step(
                    match msg {
                        Some(m) => seq![m + ": Read the following bytes as a string: "@ + text],
                        None => Seq::empty(),
                    },
                    None,
                    None,
                    false,
                ),
                acc,
                s,
            ),
            ReadSpec::Done(Err(e), _) => (
                step(seq![error_text(e), "Clearing accumulator"@], None, Some(e), false),
                Seq::empty(),
                s,
            ),
            ReadSpec::Done(Ok(args), _) => {
                let (st, s2) = run_command_spec(args, s, now);
                (st, Seq::empty(), s2)
            },
        }
    }
}

/// The key and the elements of an RPUSH that the bytes `acc` hold as a whole
/// request, if they hold one.
pub open spec fn rpush_request(acc: Seq<u8>) -> Option<(Seq<char>, Seq<Seq<char>>)> {
    if acc.len() > 0 && acc[0] == 42u8 {
        match resp_array_spec(acc, 1) {
            ReadSpec::Done(Ok(args), _) => if args.len() >= 2 && command_type_of(args[0])
                == Some(CommandType::RPUSH) {
                Some((args[1], args.skip(2)))
            } else {
                None
            },
            _ => None,
        }
    } else {
        None
    }
}

proof fn lemma_set_options_not_io(
    cmd: Seq<char>,
    args: Seq<Seq<char>>,
    index: int,
    acc: Seq<crate::data_store::SetOptionView>,
)
    ensures
        crate::executor::set_options_spec(cmd, args, index, acc) matches Err(e) ==> !(e is IoError),
    decreases args.len() - index,
{
    if 0 <= index && index + 1 < args.len() {
        lemma_set_options_not_io(cmd, args, index + 2, acc.push(crate::data_store::SetOptionView::EX(args[index + 1])));
        lemma_set_options_not_io(cmd, args, index + 2, acc.push(crate::data_store::SetOptionView::PX(args[index + 1])));
    }
}

proof fn lemma_command_not_io(s: StoreView, name: CommandType, args: Seq<Seq<char>>, now: u128)
    ensures
        command_spec(s, name, args, now).0 matches Err(e) ==> !(e is IoError),
{
    lemma_set_options_not_io(args[0], args, 3, Seq::empty());
}

proof fn lemma_elements_not_io(
    b: Seq<u8>,
    initial: int,
    pos: int,
    i: nat,
    n: nat,
    got: Seq<Seq<char>>,
)
    ensures
        crate::parser::array_elements_spec(b, initial, pos, i, n, got) matches ReadSpec::Done(Err(e), _)
            ==> !(e is IoError),
    decreases n - i,
{
    if i < n && pos < b.len() && b[pos] == 36u8 {
        if let ReadSpec::Done(Ok(x), q) = crate::parser::bulk_string_spec(b, pos + 1) {
            lemma_elements_not_io(
                b,
                initial,
                q,
                i + 1,
                n,
                got.push(if i == 0 { crate::text::ascii_upper(x) } else { x }),
            );
        }
    }
}

proof fn lemma_array_not_io(b: Seq<u8>, start: int)
    ensures
        resp_array_spec(b, start) matches ReadSpec::Done(Err(e), _) ==> !(e is IoError),
{
    if let Some(p) = crate::parser::line_end(b, start) {
        if let Some(n) = crate::decimal::parse_unsigned(b.subrange(start, p + 1), usize::MAX as nat) {
            lemma_elements_not_io(b, start, p + 3, 0, n, Seq::empty());
        }
    }
}

fn command_type_from_name(name: &String) -> (r: Option<CommandType>)
    ensures
        r == command_type_of(name@),
{
    if *name == String::from_str("PING") {
        Some(CommandType::PING)
    } else if *name == String::from_str("ECHO") {
        Some(CommandType::ECHO)
    } else if *name == String::from_str("SET") {
        Some(CommandType::SET)
    } else if *name == String::from_str("GET") {
        Some(CommandType::GET)
    } else if *name == String::from_str("RPUSH") {
        Some(CommandType::RPUSH)
    } else {
        None
    }
}

fn run_command(parsed_command: Vec<String>, db: &mut KvStore, now: u128) -> (r: RequestStep)
    requires
        old(db).db.wf(),
    ensures
        final(db).db.wf(),
        r@ == run_command_spec(texts(parsed_command@), old(db).db@, now).0,
        final(db).db@ == run_command_spec(texts(parsed_command@), old(db).db@, now).1,
        parsed_command@.len() >= 2 && command_type_of(parsed_command@[0]@) == Some(CommandType::RPUSH)
            ==> served_messages(old(db).db@, parsed_command@[1]@, texts(parsed_command@).skip(2)),
{
    let mut log_lines: Vec<String> = Vec::new();
    if parsed_command.len() == 0 {
        assert(texts(log_lines@) =~= Seq::<Seq<char>>::empty());
        return RequestStep {
            log_lines,
            response: None,
            error: Some(
                RedisError::MalformedRequest(
                    0,
                    String::new(),
                    Some(String::from_str("Malformed Request Error: RESP Command lacks command name")),
                ),
            ),
            aborted: false,
        };
    }
    let mut registered = String::from_str("Registered ");
    registered.append(parsed_command[0].as_str());
    registered.append(" command");
    log_lines.push(registered);
    let command_type = match command_type_from_name(&parsed_command[0]) {
        Some(t) => t,
        None => {
            let e = RedisError::UnimplementedCommandType(parsed_command[0].clone());
            log_lines.push(e.to_string());
            assert(texts(log_lines@) =~= seq![log_lines@[0]@, log_lines@[1]@]);
            return RequestStep { log_lines, response: None, error: Some(e), aborted: false };
        },
    };
    let command = Command { command_name: command_type, command_args: parsed_command };
    assert(texts(log_lines@) =~= seq![log_lines@[0]@]);
    if !command_in_range(&command, db, now) {
        return RequestStep { log_lines, response: None, error: None, aborted: true };
    }
    match command_executor(command, db, now) {
        Ok(response) => {
            let text = resp_serializer(response);
            RequestStep { log_lines, response: Some(text), error: None, aborted: false }
        },
        Err(e) => {
            proof {
                lemma_command_not_io(old(db).db@, command.command_name, texts(command.command_args@), now);
            }
            log_lines.push(e.to_string());
            assert(texts(log_lines@) =~= seq![log_lines@[0]@, log_lines@[1]@]);
            RequestStep { log_lines, response: None, error: Some(e), aborted: false }
        },
    }
}

/// Handles what a client has sent so far, after a read of `n` bytes that
/// `accumulator` ends with.
pub fn handle_read(accumulator: &mut Vec<u8>, n: usize, db: &mut KvStore, now: u128) -> (r: RequestStep)
    requires
        1 <= n <= old(accumulator)@.len(),
        positions_fit(old(accumulator)@.len(), 1),
        old(db).db.wf(),
    ensures
        final(db).db.wf(),
        r@ == handle_read_spec(old(accumulator)@, n as nat, old(db).db@, now).0,
        final(accumulator)@ == handle_read_spec(old(accumulator)@, n as nat, old(db).db@, now).1,
        final(db).db@ == handle_read_spec(old(accumulator)@, n as nat, old(db).db@, now).2,
        rpush_request(old(accumulator)@) matches Some((key, xs)) ==> served_messages(
            old(db).db@,
            key,
            xs,
        ),
{
    let mut log_lines: Vec<String> = Vec::new();
    if accumulator[0] != 42u8 {
        let e = RedisError::UnknownRESPDataType(
            0,
            utf8_lossy_string(vstd::slice::slice_subrange(accumulator.as_slice(), 0, n)),
            Some(String::from_str("RESP Commands are expected to begin with '*' and hence be RESP arrays")),
        );
        let mut line = e.to_string();
        line.append(", RESP Commands are expected to begin with '*'");
        log_lines.push(line);
        assert(texts(log_lines@) =~= seq![log_lines@[0]@]);
        return RequestStep { log_lines, response: None, error: None, aborted: false };
    }
    if resp_array_overruns(accumulator, 1) {
        assert(texts(log_lines@) =~= Seq::<Seq<char>>::empty());
        return RequestStep { log_lines, response: None, error: None, aborted: true };
    }
    let mut curr: usize = 1;
    let result = parse_resp_array(accumulator, &mut curr);
    match result {
        Err(RedisError::OutOfBytes(text, msg)) => {
            if let Some(m) = msg {
                let mut line = m;
                line.append(": Read the following bytes as a string: ");
                line.append(text.as_str());
                log_lines.push(line);
                assert(texts(log_lines@) =~= seq![log_lines@[0]@]);
            } else {
                assert(texts(log_lines@) =~= Seq::<Seq<char>>::empty());
            }
            RequestStep { log_lines, response: None, error: None, aborted: false }
        },
        Err(e) => {
            proof {
                lemma_array_not_io(old(accumulator)@, 1);
            }
            log_lines.push(e.to_string());
            log_lines.push(String::from_str("Clearing accumulator"));
            assert(texts(log_lines@) =~= seq![log_lines@[0]@, log_lines@[1]@]);
            accumulator.clear();
            RequestStep { log_lines, response: None, error: Some(e), aborted: false }
        },
        Ok(parsed_command) => {
            accumulator.clear();
            run_command(parsed_command, db, now)
        },
    }
}

} // verus!
