//! The command executor: runs one parsed command against the store and says
//! what to answer.

use vstd::prelude::*;
use vstd::utf8::encode_utf8;
use crate::decimal::{parse_i32, parse_i32_spec};
use crate::parser::texts;
use crate::redis_error::{RedisError, RedisErrorView};
use crate::data_store::{
    KvStore, PushType, RedisValue, SetOptionList, SetOptions, SetOptionView, StoreView, ValueView,
    get_ok, get_spec, lrange_ok, lrange_spec, push_spec, set_spec, time_fits, list_result,
    count_result, served_messages,
};

verus! {

#[derive(Clone, Copy)]
pub enum CommandType {
    PING,
    ECHO,
    SET,
    GET,
    RPUSH,
    LRANGE,
    LPUSH,
}

/// A command: its type and its arguments, the command's name first.
#[derive(Clone)]
pub struct Command {
    pub command_name: CommandType,
    pub command_args: Vec<String>,
}

/// An answer to a command.
pub enum RedisResponse {
    SimpleString(String),
    BulkString(String),
    NullBulkString,
    Integer(i32),
    BulkStringArray(Vec<String>),
}

/// An answer, its texts as character sequences.
pub enum ResponseView {
    SimpleString(Seq<char>),
    BulkString(Seq<char>),
    NullBulkString,
    Integer(i32),
    BulkStringArray(Seq<Seq<char>>),
}

impl View for RedisResponse {
    type V = ResponseView;

    open spec fn view(&self) -> ResponseView {
        match self {
            RedisResponse::SimpleString(s) => ResponseView::SimpleString(s@),
            RedisResponse::BulkString(s) => ResponseView::BulkString(s@),
            RedisResponse::NullBulkString => ResponseView::NullBulkString,
            RedisResponse::Integer(n) => ResponseView::Integer(*n),
            RedisResponse::BulkStringArray(v) => ResponseView::BulkStringArray(texts(v@)),
        }
    }
}

pub open spec fn response_result(r: Result<RedisResponse, RedisError>) -> Result<
    ResponseView,
    RedisErrorView,
> {
    match r {
        Ok(v) => Ok(v@),
        Err(e) => Err(e@),
    }
}

/// The SET options that follow the key and value, from `index` on: each
/// option name needs a value after it, and only `EX` and `PX` are known.
pub open spec fn set_options_spec(
    cmd: Seq<char>,
    args: Seq<Seq<char>>,
    index: int,
    acc: Seq<SetOptionView>,
) -> Result<Seq<SetOptionView>, RedisErrorView>
    decreases args.len() - index,
{
    if index < 0 || index >= args.len() {
        Ok(acc)
    } else {
        let option = args[index];
        if index + 1 >= args.len() {
            Err(RedisErrorView::MissingArumentForOption(cmd, option))
        } else if option == "EX"@ {
            set_options_spec(cmd, args, index + 2, acc.push(SetOptionView::EX(args[index + 1])))
        } else if option == "PX"@ {
            set_options_spec(cmd, args, index + 2, acc.push(SetOptionView::PX(args[index + 1])))
        } else {
            Err(RedisErrorView::UnrecognizedCommandOption(cmd, option))
        }
    }
}

pub open spec fn lrange_start_msg(arg: Seq<char>) -> Seq<char> {
    "LRANGE command argument 2 (start): "@ + arg + " cannot be parsed as an integer"@
}

pub open spec fn lrange_stop_msg(arg: Seq<char>) -> Seq<char> {
    "LRANGE command arument 3 (stop): "@ + arg + " cannot be parsed as an integer"@
}

/// A push's count as an answer (`as i32`).
pub open spec fn push_answer(r: Result<nat, RedisErrorView>) -> Result<ResponseView, RedisErrorView> {
    match r {
        Ok(n) => Ok(ResponseView::Integer(n as i32)),
        Err(e) => Err(e),
    }
}

/// What a command answers and the store it leaves, at time `now`.
pub open spec fn command_spec(s: StoreView, name: CommandType, args: Seq<Seq<char>>, now: u128) -> (
    Result<ResponseView, RedisErrorView>,
    StoreView,
) {
    let cmd = args[0];
    match name {
        CommandType::PING => (Ok(ResponseView::SimpleString("PONG"@)), s),
        CommandType::ECHO => (Ok(ResponseView::BulkString(args[1])), s),
        CommandType::SET => if args.len() >= 3 {
            match set_options_spec(cmd, args, 3, Seq::empty()) {
                Err(e) => (Err(e), s),
                Ok(opts) => (
                    Ok(ResponseView::SimpleString("OK"@)),
                    set_spec(
                        s,
                        args[1],
                        args[2],
                        if opts.len() == 0 {
                            None
                        } else {
                            Some(opts)
                        },
                        now,
                    ).1,
                ),
            }
        } else {
            (Err(RedisErrorView::CommandMissingRequiredArguments(cmd, (args.len() - 1) as i32, 2)), s)
        },
        CommandType::GET => if args.len() >= 2 {
            let (v, s2) = get_spec(s, args[1], now);
            (
                Ok(
                    match v {
                        Some(ValueView::Str(x)) => ResponseView::BulkString(x),
                        _ => ResponseView::NullBulkString,
                    },
                ),
                s2,
            )
        } else {
            (Err(RedisErrorView::CommandMissingRequiredArguments(cmd, 0, 1)), s)
        },
        CommandType::RPUSH => if args.len() >= 2 {
            let (r, s2) = push_spec(s, args[1], args.skip(2), false);
            (push_answer(r), s2)
        } else {
            (Err(RedisErrorView::CommandMissingRequiredArguments(cmd, 0, 1)), s)
        },
        CommandType::LRANGE => if args.len() >= 4 {
            match parse_i32_spec(encode_utf8(args[2])) {
                None => (Err(RedisErrorView::WrongType(lrange_start_msg(args[2]))), s),
                Some(a) => match parse_i32_spec(encode_utf8(args[3])) {
                    None => (Err(RedisErrorView::WrongType(lrange_stop_msg(args[3]))), s),
                    Some(b) => (
                        match lrange_spec(s, args[1], a as i32, b as i32) {
                            Ok(l) => Ok(ResponseView::BulkStringArray(l)),
                            Err(e) => Err(e),
                        },
                        s,
                    ),
                },
            }
        } else {
            (Err(RedisErrorView::CommandMissingRequiredArguments(cmd, (args.len() - 1) as i32, 3)), s)
        },
        CommandType::LPUSH => if args.len() >= 2 {
            let (r, s2) = push_spec(s, args[1], args.skip(2), true);
            (push_answer(r), s2)
        } else {
            (Err(RedisErrorView::CommandMissingRequiredArguments(cmd, (args.len() - 1) as i32, 1)), s)
        },
    }
}

/// A command runs without failing: it has its name, ECHO has its argument,
/// the time leaves room for SET's expiries, and GET and LRANGE stay within
/// what the store allows.
pub open spec fn command_ok(s: StoreView, name: CommandType, args: Seq<Seq<char>>, now: u128) -> bool {
    &&& args.len() >= 1
    &&& name is ECHO ==> args.len() >= 2
    &&& name is SET ==> time_fits(now)
    &&& name is GET && args.len() >= 2 ==> get_ok(s, args[1], now)
    &&& name is LRANGE && args.len() >= 4 ==> lrange_ok(s, args[1])
}

/// Reads the SET options from `index` on.
fn collect_set_options(cmd_name: &String, args: &Vec<String>) -> (r: Result<SetOptionList, RedisError>)
    requires
        args@.len() >= 3,
    ensures
        match set_options_spec(cmd_name@, texts(args@), 3, Seq::empty()) {
            Ok(o) => r matches Ok(v) && v@.map_values(|x: SetOptions| x@) == o,
            Err(e) => r matches Err(x) && x@ == e,
        },
{
    let ghost a = texts(args@);
    let mut opt: SetOptionList = Vec::new();
    let mut index: usize = 3;
    let ex = String::from_str("EX");
    let px = String::from_str("PX");
    assert(opt@.map_values(|x: SetOptions| x@) =~= Seq::<SetOptionView>::empty());
    while index < args.len()
        invariant
            3 <= index <= args@.len(),
            a == texts(args@),
            ex@ == "EX"@,
            px@ == "PX"@,
            set_options_spec(cmd_name@, a, 3, Seq::empty()) == set_options_spec(
                cmd_name@,
                a,
                index as int,
                opt@.map_values(|x: SetOptions| x@),
            ),
        decreases args@.len() - index,
    {
        let option = &args[index];
        if index + 1 >= args.len() {
            return Err(RedisError::MissingArumentForOption(cmd_name.clone(), option.clone()));
        }
        let option_val = &args[index + 1];
        let ghost before = opt@;
        if *option == ex {
            opt.push(SetOptions::EX(option_val.clone()));
        } else if *option == px {
            opt.push(SetOptions::PX(option_val.clone()));
        } else {
            return Err(RedisError::UnrecognizedCommandOption(cmd_name.clone(), option.clone()));
        }
        assert(opt@.map_values(|x: SetOptions| x@) =~= before.map_values(|x: SetOptions| x@).push(
            opt@.last()@,
        ));
        index = index + 2;
    }
    Ok(opt)
}

/// Whether `command` stays within `command_ok` against `db` at `now`.
pub fn command_in_range(command: &Command, db: &KvStore, now: u128) -> (r: bool)
    ensures
        r == command_ok(db.db@, command.command_name, texts(command.command_args@), now),
{
    let args = &command.command_args;
    if args.len() < 1 {
        return false;
    }
    match command.command_name {
        CommandType::ECHO => args.len() >= 2,
        CommandType::SET => now < 0x1_0000_0000_0000_0000_0000_0000u128,
        CommandType::GET => args.len() < 2 || db.get_in_range(&args[1], now),
        CommandType::LRANGE => args.len() < 4 || db.db.lrange_in_range(&args[1]),
        _ => true,
    }
}

/// Runs `command` against `db` at time `now` and gives the answer.
pub fn command_executor(command: Command, db: &mut KvStore, now: u128) -> (r: Result<
    RedisResponse,
    RedisError,
>)
    requires
        old(db).db.wf(),
        command_ok(old(db).db@, command.command_name, texts(command.command_args@), now),
    ensures
        final(db).db.wf(),
        response_result(r) == command_spec(
            old(db).db@,
            command.command_name,
            texts(command.command_args@),
            now,
        ).0,
        final(db).db@ == command_spec(
            old(db).db@,
            command.command_name,
            texts(command.command_args@),
            now,
        ).1,
        (command.command_name is RPUSH || command.command_name is LPUSH) && command.command_args@.len()
            >= 2 ==> served_messages(
            old(db).db@,
            command.command_args@[1]@,
            texts(command.command_args@).skip(2),
        ),
{
    let ghost a = texts(command.command_args@);
    let args = command.command_args;
    let cmd_name = args[0].clone();
    match command.command_name {
        CommandType::PING => {
            proof {
                reveal_strlit("PONG");
            }
            Ok(RedisResponse::SimpleString(String::from_str("PONG")))
        },
        CommandType::ECHO => Ok(RedisResponse::BulkString(args[1].clone())),
        CommandType::SET => {
            if args.len() >= 3 {
                let opt = match collect_set_options(&cmd_name, &args) {
                    Ok(o) => o,
                    Err(e) => {
                        return Err(e);
                    },
                };
                let set_opts = if opt.len() == 0 {
                    None
                } else {
                    Some(opt)
                };
                let _ = db.set(args[1].clone(), args[2].clone(), set_opts, now);
                Ok(RedisResponse::SimpleString(String::from_str("OK")))
            } else {
                Err(RedisError::CommandMissingRequiredArguments(cmd_name, (args.len() - 1) as i32, 2))
            }
        },
        CommandType::GET => {
            if args.len() >= 2 {
                match db.get(args[1].clone(), now) {
                    Some(value) => match value {
                        RedisValue::StringVal(s) => Ok(RedisResponse::BulkString(s)),
                        RedisValue::ListVal(_) => Ok(RedisResponse::NullBulkString),
                    },
                    None => Ok(RedisResponse::NullBulkString),
                }
            } else {
                Err(RedisError::CommandMissingRequiredArguments(cmd_name, 0, 1))
            }
        },
        CommandType::RPUSH => {
            if args.len() >= 2 {
                let to_append = rest_of_args(&args);
                match db.push(args[1].clone(), to_append, PushType::Right) {
                    Ok(len_list) => Ok(RedisResponse::Integer(len_list as i32)),
                    Err(e) => Err(e),
                }
            } else {
                Err(RedisError::CommandMissingRequiredArguments(cmd_name, 0, 1))
            }
        },
        CommandType::LRANGE => {
            if args.len() >= 4 {
                let start_str = &args[2];
                let stop_str = &args[3];
                let start = match parse_i32(start_str.as_str().as_bytes()) {
                    Some(v) => v,
                    None => {
                        let mut m = String::from_str("LRANGE command argument 2 (start): ");
                        m.append(start_str.as_str());
                        m.append(" cannot be parsed as an integer");
                        return Err(RedisError::WrongType(m));
                    },
                };
                let stop = match parse_i32(stop_str.as_str().as_bytes()) {
                    Some(v) => v,
                    None => {
                        let mut m = String::from_str("LRANGE command arument 3 (stop): ");
                        m.append(stop_str.as_str());
                        m.append(" cannot be parsed as an integer");
                        return Err(RedisError::WrongType(m));
                    },
                };
                match db.lrange(args[1].clone(), start, stop) {
                    Err(e) => Err(e),
                    Ok(response) => Ok(RedisResponse::BulkStringArray(response)),
                }
            } else {
                Err(RedisError::CommandMissingRequiredArguments(cmd_name, (args.len() - 1) as i32, 3))
            }
        },
        CommandType::LPUSH => {
            if args.len() >= 2 {
                let to_append = rest_of_args(&args);
                match db.push(args[1].clone(), to_append, PushType::Left) {
                    Ok(len_list) => Ok(RedisResponse::Integer(len_list as i32)),
                    Err(e) => Err(e),
                }
            } else {
                Err(RedisError::CommandMissingRequiredArguments(cmd_name, (args.len() - 1) as i32, 1))
            }
        },
    }
}

/// The arguments after the key: `args[2..]`.
fn rest_of_args(args: &Vec<String>) -> (r: Vec<String>)
    requires
        args@.len() >= 2,
    ensures
        texts(r@) == texts(args@).skip(2),
{
    let mut to_append: Vec<String> = Vec::new();
    let mut i: usize = 2;
    assert(texts(to_append@) =~= texts(args@).subrange(2, 2));
    while i < args.len()
        invariant
            2 <= i <= args@.len(),
            texts(to_append@) == texts(args@).subrange(2, i as int),
        decreases args@.len() - i,
    {
        let ghost before = to_append@;
        let item = args[i].clone();
        to_append.push(item);
        assert(texts(to_append@) =~= texts(before).push(item@));
        assert(texts(to_append@) =~= texts(args@).subrange(2, i + 1));
        i = i + 1;
    }
    assert(texts(args@).subrange(2, args@.len() as int) =~= texts(args@).skip(2));
    to_append
}

} // verus!
