//! What the server does with whole requests as a client sends them: the
//! command each served name selects, and the time requests run at.

use vstd::prelude::*;
use crate::data_store::{StoreView, StoredView, ValueView, list_at, time_fits};
use crate::decimal::{decimal_chars, parse_unsigned};
use crate::redis_error::RedisErrorView;
use crate::parser::{resp_array_spec, ReadSpec};
use crate::text::ascii_upper;
use crate::executor::ResponseView;
use crate::resp_serializer::resp_text;
use crate::connection::{handle_read_spec, run_command_spec, command_type_of};
use crate::laws::{
    array_request, upper_first, law_parse_request, law_rpush_appends, plain_list_key,
    lemma_decimal_bytes, decimal_bytes,
};
use vstd::utf8::encode_utf8;

verus! {

/// A whole request handled as one read runs its arguments, the command's
/// name upper-cased, and clears the buffer.
proof fn lemma_whole_request(items: Seq<Seq<char>>, n: nat, s: StoreView, now: u128)
    requires
        array_request(items).len() <= usize::MAX,
        items.len() <= usize::MAX,
    ensures
        handle_read_spec(array_request(items), n, s, now) == ({
            let (st, s2) = run_command_spec(upper_first(items), s, now);
            (st, Seq::<u8>::empty(), s2)
        }),
{
    let a = array_request(items);
    law_parse_request(items, Seq::empty());
    assert(a + Seq::<u8>::empty() =~= a);
    assert(a[0] == 42u8);
}

proof fn lemma_names()
    ensures
        ascii_upper("PING"@) == "PING"@,
        ascii_upper("ECHO"@) == "ECHO"@,
        ascii_upper("SET"@) == "SET"@,
        ascii_upper("GET"@) == "GET"@,
        ascii_upper("RPUSH"@) == "RPUSH"@,
        command_type_of("PING"@) == Some(crate::executor::CommandType::PING),
        command_type_of("ECHO"@) == Some(crate::executor::CommandType::ECHO),
        command_type_of("SET"@) == Some(crate::executor::CommandType::SET),
        command_type_of("GET"@) == Some(crate::executor::CommandType::GET),
        command_type_of("RPUSH"@) == Some(crate::executor::CommandType::RPUSH),
        "PX"@ != "EX"@,
{
    reveal_strlit("PING");
    reveal_strlit("ECHO");
    reveal_strlit("SET");
    reveal_strlit("GET");
    reveal_strlit("RPUSH");
    reveal_strlit("PX");
    reveal_strlit("EX");
    assert(ascii_upper("PING"@) =~= "PING"@);
    assert(ascii_upper("ECHO"@) =~= "ECHO"@);
    assert(ascii_upper("SET"@) =~= "SET"@);
    assert(ascii_upper("GET"@) =~= "GET"@);
    assert(ascii_upper("RPUSH"@) =~= "RPUSH"@);
    assert("ECHO"@ != "PING"@) by {
        assert("ECHO"@[0] != "PING"@[0]);
    }
    assert("SET"@ != "PING"@);
    assert("SET"@ != "ECHO"@);
    assert("GET"@ != "PING"@);
    assert("GET"@ != "ECHO"@);
    assert("GET"@ != "SET"@) by {
        assert("GET"@[0] != "SET"@[0]);
    }
    assert("RPUSH"@ != "PING"@);
    assert("RPUSH"@ != "ECHO"@) by {
        assert("RPUSH"@[0] != "ECHO"@[0]);
    }
    assert("RPUSH"@ != "SET"@);
    assert("RPUSH"@ != "GET"@);
    assert("PX"@ != "EX"@) by {
        assert("PX"@[0] != "EX"@[0]);
    }
}

/// A whole PING request, in any case, is answered `+PONG` and leaves the
/// store as it was.
pub proof fn law_ping_request(n: nat, s: StoreView, now: u128)
    requires
        array_request(seq!["PING"@]).len() <= usize::MAX,
    ensures
        ({
            let (st, acc, s2) = handle_read_spec(array_request(seq!["PING"@]), n, s, now);
            &&& st.response == Some(resp_text(ResponseView::SimpleString("PONG"@)))
            &&& st.error is None
            &&& !st.aborted
            &&& acc == Seq::<u8>::empty()
            &&& s2 == s
        }),
{
    let items = seq!["PING"@];
    lemma_names();
    lemma_whole_request(items, n, s, now);
    assert(upper_first(items) =~= seq!["PING"@]);
}

/// A whole ECHO request answers its argument as a bulk string and leaves
/// the store as it was.
pub proof fn law_echo_request(text: Seq<char>, n: nat, s: StoreView, now: u128)
    requires
        array_request(seq!["ECHO"@, text]).len() <= usize::MAX,
    ensures
        ({
            let (st, acc, s2) = handle_read_spec(array_request(seq!["ECHO"@, text]), n, s, now);
            &&& st.response == Some(resp_text(ResponseView::BulkString(text)))
            &&& st.error is None
            &&& !st.aborted
            &&& acc == Seq::<u8>::empty()
            &&& s2 == s
        }),
{
    let items = seq!["ECHO"@, text];
    lemma_names();
    lemma_whole_request(items, n, s, now);
    assert(upper_first(items) =~= items);
}

/// A whole RPUSH request appends its elements to the list at its key (one
/// that holds no string and has no blocked clients) and answers the new
/// length as an integer.
pub proof fn law_rpush_request(items: Seq<Seq<char>>, n: nat, s: StoreView, now: u128)
    requires
        items.len() >= 2,
        items[0] == "RPUSH"@,
        array_request(items).len() <= usize::MAX,
        items.len() <= usize::MAX,
        plain_list_key(s, items[1]),
        list_at(s, items[1]).len() + items.len() - 2 <= i32::MAX,
    ensures
        ({
            let (st, acc, s2) = handle_read_spec(array_request(items), n, s, now);
            let key = items[1];
            let xs = items.skip(2);
            &&& st.response == Some(
                resp_text(ResponseView::Integer((list_at(s, key).len() + xs.len()) as i32)),
            )
            &&& (list_at(s, key).len() + xs.len()) as i32 == list_at(s, key).len() + xs.len()
            &&& st.error is None
            &&& !st.aborted
            &&& acc == Seq::<u8>::empty()
            &&& list_at(s2, key) == list_at(s, key) + xs
        }),
{
    lemma_names();
    lemma_whole_request(items, n, s, now);
    let args = upper_first(items);
    assert(args[0] == "RPUSH"@);
    assert(args[1] == items[1]);
    assert(args.skip(2) =~= items.skip(2));
    law_rpush_appends(s, items[1], items.skip(2));
}

/// A whole `SET key value PX t` request handled at `now`.
#[verifier::rlimit(40)]
proof fn lemma_set_px_request(key: Seq<char>, value: Seq<char>, t: u64, s: StoreView, now: u128, n: nat)
    requires
        time_fits(now),
        array_request(seq!["SET"@, key, value, "PX"@, decimal_chars(t as nat)]).len() <= usize::MAX,
    ensures
        ({
            let e = (now + t) as u128;
            let (st, acc, s1) = handle_read_spec(
                array_request(seq!["SET"@, key, value, "PX"@, decimal_chars(t as nat)]),
                n,
                s,
                now,
            );
            &&& st.response == Some(resp_text(ResponseView::SimpleString("OK"@)))
            &&& acc == Seq::<u8>::empty()
            &&& s1 == crate::data_store::insert_spec(
                s,
                key,
                StoredView { val: ValueView::Str(value), expiry: Some(e) },
                Some(e),
            )
        }),
{
    lemma_names();
    let set_items = seq!["SET"@, key, value, "PX"@, decimal_chars(t as nat)];
    lemma_whole_request(set_items, n, s, now);
    assert(upper_first(set_items) =~= set_items);
    lemma_decimal_bytes(t as nat);
    let digits = decimal_chars(t as nat);
    assert(encode_utf8(digits) == decimal_bytes(t as nat));
    assert(parse_unsigned(encode_utf8(digits), u64::MAX as nat) == Some(t as nat));
    let opts = seq![crate::data_store::SetOptionView::PX(digits)];
    assert(crate::executor::set_options_spec("SET"@, set_items, 5, opts) == Ok::<
        Seq<crate::data_store::SetOptionView>,
        RedisErrorView,
    >(opts));
    assert(crate::executor::set_options_spec("SET"@, set_items, 3, Seq::empty()) == Ok::<
        Seq<crate::data_store::SetOptionView>,
        RedisErrorView,
    >(opts)) by {
        assert(Seq::<crate::data_store::SetOptionView>::empty().push(
            crate::data_store::SetOptionView::PX(set_items[4]),
        ) =~= opts);
    }
    let e = (now + t) as u128;
    assert(crate::data_store::option_expiry(opts[0], now) == Ok::<u128, RedisErrorView>(e));
    assert(opts.drop_first() =~= Seq::<crate::data_store::SetOptionView>::empty());
    assert(crate::data_store::options_expiry(opts.drop_first(), now, Some(e)) == Ok::<
        Option<u128>,
        RedisErrorView,
    >(Some(e)));
    assert(crate::data_store::options_expiry(opts, now, None) == Ok::<Option<u128>, RedisErrorView>(
        Some(e),
    ));
}

/// A whole `GET key` request handled at `later`, the key holding a string
/// that expires at `e`.
#[verifier::rlimit(40)]
proof fn lemma_get_request(key: Seq<char>, value: Seq<char>, e: u128, s: StoreView, later: u128, n: nat)
    requires
        s.kv.contains_key(key),
        s.kv[key] == (StoredView { val: ValueView::Str(value), expiry: Some(e) }),
        crate::data_store::remove_ok(s, key),
        array_request(seq!["GET"@, key]).len() <= usize::MAX,
    ensures
        ({
            let (st, acc, s2) = handle_read_spec(array_request(seq!["GET"@, key]), n, s, later);
            &&& e < later ==> st.response == Some(resp_text(ResponseView::NullBulkString))
                && !s2.kv.contains_key(key)
            &&& later <= e ==> st.response == Some(resp_text(ResponseView::BulkString(value)))
        }),
{
    lemma_names();
    let get_items = seq!["GET"@, key];
    lemma_whole_request(get_items, n, s, later);
    assert(upper_first(get_items) =~= get_items);
}

/// SET with a PX option followed by GET, each a whole request handled at its
/// own time: the value is read back up to the time SET ran plus the option's
/// milliseconds, and is gone after it (while another key with an expiry is
/// kept, so that removing this one stays within what the store allows).
pub proof fn law_set_px_then_get(
    key: Seq<char>,
    value: Seq<char>,
    t: u64,
    s: StoreView,
    now: u128,
    later: u128,
    n1: nat,
    n2: nat,
)
    requires
        time_fits(now),
        1 <= s.expiring.len() < usize::MAX,
        array_request(seq!["SET"@, key, value, "PX"@, decimal_chars(t as nat)]).len() <= usize::MAX,
        array_request(seq!["GET"@, key]).len() <= usize::MAX,
    ensures
        ({
            let set_req = array_request(seq!["SET"@, key, value, "PX"@, decimal_chars(t as nat)]);
            let (st1, acc1, s1) = handle_read_spec(set_req, n1, s, now);
            let (st2, acc2, s2) = handle_read_spec(array_request(seq!["GET"@, key]), n2, s1, later);
            &&& st1.response == Some(resp_text(ResponseView::SimpleString("OK"@)))
            &&& acc1 == Seq::<u8>::empty()
            &&& later > now + t ==> st2.response == Some(resp_text(ResponseView::NullBulkString))
                && !s2.kv.contains_key(key)
            &&& later <= now + t ==> st2.response == Some(resp_text(ResponseView::BulkString(value)))
        }),
{
    lemma_set_px_request(key, value, t, s, now, n1);
    let e = (now + t) as u128;
    let s1 = handle_read_spec(
        array_request(seq!["SET"@, key, value, "PX"@, decimal_chars(t as nat)]),
        n1,
        s,
        now,
    ).2;
    assert(s1.kv.contains_key(key));
    assert(s1.kv[key] == StoredView { val: ValueView::Str(value), expiry: Some(e) });
    assert(s1.index[key] == s.expiring.len());
    lemma_get_request(key, value, e, s1, later, n2);
}

} // verus!
