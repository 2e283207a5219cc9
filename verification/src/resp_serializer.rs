//! The RESP text of an answer.

use vstd::prelude::*;
use vstd::utf8::encode_utf8;
use crate::decimal::{append_decimal, decimal_chars, i32_to_decimal, signed_decimal_chars};
use crate::executor::{RedisResponse, ResponseView};
use crate::parser::texts;

verus! {

/// A bulk string: `$`, the length of its UTF-8 bytes, `\r\n`, the text, `\r\n`.
pub open spec fn bulk_text(s: Seq<char>) -> Seq<char> {
    "$"@ + decimal_chars(encode_utf8(s).len()) + "\r\n"@ + s + "\r\n"@
}

/// The bulk strings of a sequence, one after another.
pub open spec fn bulk_texts(v: Seq<Seq<char>>) -> Seq<char>
    decreases v.len(),
{
    if v.len() == 0 {
        Seq::empty()
    } else {
        bulk_texts(v.drop_last()) + bulk_text(v.last())
    }
}

/// The RESP text of an answer: `+text\r\n` for a simple string, a bulk
/// string, `$-1\r\n` for the null bulk string, `:n\r\n` for an integer, and
/// `*count\r\n` followed by the bulk strings for an array.
pub open spec fn resp_text(r: ResponseView) -> Seq<char> {
    match r {
        ResponseView::SimpleString(s) => "+"@ + s + "\r\n"@,
        ResponseView::BulkString(s) => bulk_text(s),
        ResponseView::NullBulkString => "$-1\r\n"@,
        ResponseView::Integer(n) => ":"@ + signed_decimal_chars(n as int) + "\r\n"@,
        ResponseView::BulkStringArray(v) => "*"@ + decimal_chars(v.len()) + "\r\n"@ + bulk_texts(v),
    }
}

fn append_bulk(out: &mut String, s: &String)
    ensures
        final(out)@ == old(out)@ + bulk_text(s@),
{
    let ghost o = out@;
    out.append("$");
    let n = s.as_str().as_bytes().len();
    assert(n == encode_utf8(s@).len());
    append_decimal(out, n as u64);
    out.append("\r\n");
    out.append(s.as_str());
    out.append("\r\n");
    assert(out@ =~= o + bulk_text(s@));
}

/// The RESP text of `response`.
pub fn resp_serializer(response: RedisResponse) -> (r: String)
    ensures
        r@ == resp_text(response@),
{
    let mut out = String::new();
    match response {
        RedisResponse::SimpleString(s) => {
            out.append("+");
            out.append(s.as_str());
            out.append("\r\n");
        },
        RedisResponse::BulkString(s) => {
            append_bulk(&mut out, &s);
        },
        RedisResponse::NullBulkString => {
            out.append("$-1\r\n");
        },
        RedisResponse::Integer(n) => {
            out.append(":");
            out.append(i32_to_decimal(n).as_str());
            out.append("\r\n");
        },
        RedisResponse::BulkStringArray(v) => {
            out.append("*");
            append_decimal(&mut out, v.len() as u64);
            out.append("\r\n");
            let ghost head = out@;
            let mut i: usize = 0;
            assert(texts(v@).take(0) =~= Seq::<Seq<char>>::empty());
            while i < v.len()
                invariant
                    i <= v@.len(),
                    out@ == head + bulk_texts(texts(v@).take(i as int)),
                decreases v@.len() - i,
            {
                append_bulk(&mut out, &v[i]);
                assert(texts(v@).take(i + 1).drop_last() =~= texts(v@).take(i as int));
                i = i + 1;
            }
            assert(texts(v@).take(v@.len() as int) =~= texts(v@));
        },
    }
    out
}

} // verus!
