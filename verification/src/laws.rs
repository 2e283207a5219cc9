//! Properties of the store and the parser that relate several operations.

use vstd::prelude::*;
use crate::data_store::{
    StoreView, StoredView, ValueView, get_spec, set_spec, push_spec, lpop_spec, lrange_spec,
    llen_spec, insert_spec, remove_spec, list_at, SetOptionView, option_expiry,
};
use crate::redis_error::RedisErrorView;
use crate::decimal::{decimal_chars, digit_char, digits_value, all_digits, is_digit_byte, parse_unsigned, unsigned_body};
use crate::parser::{line_end, bulk_string_spec, array_elements_spec, resp_array_spec, ReadSpec};
use crate::text::ascii_upper;
use crate::resp_serializer::{resp_text, bulk_text};
use crate::executor::ResponseView;
use crate::connection::handle_read_spec;
use crate::streams::{NodeView, insert_children, lookup_children, ends_inside_fragment, children_wf, node_wf, children_distinct, child_index, common_prefix_len, lemma_common_prefix_len, lemma_child_index_at, leaf, insert_ok};
use vstd::utf8::{encode_utf8, decode_utf8, valid_utf8, is_ascii_chars, is_ascii_chars_encode_utf8, encode_utf8_valid_utf8, encode_utf8_decode_utf8};

verus! {

/// A key with no blocked clients and no string value: a push touches only
/// its list.
pub open spec fn plain_list_key(s: StoreView, key: Seq<char>) -> bool {
    &&& !s.waiters.contains_key(key)
    &&& !(s.kv.contains_key(key) && s.kv[key].val is Str)
}

/// GET gives back what SET stored without options, whenever it is read.
pub proof fn law_get_after_set(s: StoreView, key: Seq<char>, value: Seq<char>, now: u128, later: u128)
    ensures
        get_spec(set_spec(s, key, value, None, now).1, key, later).0 == Some(ValueView::Str(value)),
{
}

/// A value stored with an expiry is readable up to its expiry time and gone
/// once the time is past it.
pub proof fn law_get_with_expiry(s: StoreView, key: Seq<char>, value: Seq<char>, opt: SetOptionView, now: u128, later: u128)
    requires
        option_expiry(opt, now) is Ok,
    ensures
        ({
            let t = option_expiry(opt, now)->Ok_0;
            let s1 = set_spec(s, key, value, Some(seq![opt]), now).1;
            &&& later <= t ==> get_spec(s1, key, later).0 == Some(ValueView::Str(value))
            &&& later > t ==> get_spec(s1, key, later).0 is None
            &&& later > t ==> !get_spec(s1, key, later).1.kv.contains_key(key)
        }),
{
    let t = option_expiry(opt, now)->Ok_0;
    assert(seq![opt].drop_first() =~= Seq::<SetOptionView>::empty());
    assert(crate::data_store::options_expiry(Seq::<SetOptionView>::empty(), now, Some(t)) == Ok::<Option<u128>, RedisErrorView>(Some(t)));
    assert(crate::data_store::options_expiry(seq![opt], now, None) == Ok::<Option<u128>, RedisErrorView>(Some(t)));
}

/// RPUSH appends to the list, in order; the count it answers is the new
/// length.
pub proof fn law_rpush_appends(s: StoreView, key: Seq<char>, xs: Seq<Seq<char>>)
    requires
        plain_list_key(s, key),
    ensures
        push_spec(s, key, xs, false).0 == Ok::<nat, RedisErrorView>(list_at(s, key).len() + xs.len()),
        list_at(push_spec(s, key, xs, false).1, key) == list_at(s, key) + xs,
{
    assert(xs.skip(0) =~= xs);
}

/// LPUSH puts the elements at the front, the last one first.
pub proof fn law_lpush_prepends_reversed(s: StoreView, key: Seq<char>, xs: Seq<Seq<char>>)
    requires
        plain_list_key(s, key),
    ensures
        list_at(push_spec(s, key, xs, true).1, key) == xs.reverse() + list_at(s, key),
{
    assert(xs.skip(0) =~= xs);
}

/// LRANGE from 0 to -1 gives the whole list.
pub proof fn law_lrange_whole_list(s: StoreView, key: Seq<char>)
    requires
        s.kv.contains_key(key),
        s.kv[key].val is List,
        s.kv[key].val->List_0.len() <= i32::MAX,
    ensures
        lrange_spec(s, key, 0i32, -1i32) == Ok::<Seq<Seq<char>>, RedisErrorView>(s.kv[key].val->List_0),
{
    let l = s.kv[key].val->List_0;
    assert(l.len() as i32 == l.len());
    if l.len() > 0 {
        assert(l.subrange(0, l.len() as int) =~= l);
    } else {
        assert(l =~= Seq::<Seq<char>>::empty());
    }
}

/// Popping after a right push on a key that held no list gives the pushed
/// elements first in first out.
pub proof fn law_lpop_after_rpush_fifo(s: StoreView, key: Seq<char>, xs: Seq<Seq<char>>, n: nat)
    requires
        plain_list_key(s, key),
        !s.kv.contains_key(key),
        n <= xs.len(),
    ensures
        lpop_spec(push_spec(s, key, xs, false).1, key, n).0 == Ok::<Seq<Seq<char>>, RedisErrorView>(xs.take(n as int)),
{
    assert(xs.skip(0) =~= xs);
    assert(Seq::<Seq<char>>::empty() + xs =~= xs);
}

/// Elements handed to blocked clients never reach the list: the clients
/// served and the elements pushed add up to the elements given.
pub proof fn law_push_serves_waiters_first(s: StoreView, key: Seq<char>, xs: Seq<Seq<char>>, left: bool)
    requires
        s.waiters.contains_key(key),
        !(s.kv.contains_key(key) && s.kv[key].val is Str),
    ensures
        ({
            let s2 = push_spec(s, key, xs, left).1;
            let served = (s.waiters[key].len() - s2.waiters[key].len()) as nat;
            &&& served + (list_at(s2, key).len() - list_at(s, key).len()) == xs.len()
            &&& s2.waiters[key] == s.waiters[key].skip(served as int)
        }),
{
    let w = s.waiters[key].len();
    let handed = if xs.len() <= w { xs.len() } else { w };
    let s2 = push_spec(s, key, xs, left).1;
    assert(s2.waiters[key] == s.waiters[key].skip(handed as int));
    assert(list_at(s2, key) == s2.kv[key].val->List_0);
}

/// LLEN is the length of the list that LRANGE 0 -1 gives.
pub proof fn law_llen_matches_lrange(s: StoreView, key: Seq<char>, now: u128)
    requires
        s.kv.contains_key(key),
        s.kv[key].val is List,
        s.kv[key].expiry is None,
        s.kv[key].val->List_0.len() <= i32::MAX,
    ensures
        llen_spec(s, key, now).0 == Ok::<Option<nat>, RedisErrorView>(Some(s.kv[key].val->List_0.len())),
        lrange_spec(s, key, 0i32, -1i32) == Ok::<Seq<Seq<char>>, RedisErrorView>(s.kv[key].val->List_0),
{
    law_lrange_whole_list(s, key);
}

/// Removing a key that was just stored without an expiry leaves the other
/// keys as they were.
pub proof fn law_remove_undoes_insert(s: StoreView, key: Seq<char>, v: StoredView)
    requires
        v.expiry is None,
    ensures
        remove_spec(insert_spec(s, key, v, None), key).kv == s.kv.remove(key),
        remove_spec(insert_spec(s, key, v, None), key).expiring == s.expiring,
{
    assert(s.kv.insert(key, v).remove(key) =~= s.kv.remove(key));
}

/// The expiry entries, their recorded positions and the values agree: the
/// key of each entry is recorded at the entry's position and holds a value
/// that expires at the entry's time; each recorded position holds an entry
/// of its key; and each value with an expiry has a recorded entry.
pub open spec fn expiry_index_consistent(s: StoreView) -> bool {
    &&& forall|i: int| 0 <= i < s.expiring.len() ==> {
        &&& s.index.contains_key((#[trigger] s.expiring[i]).0)
        &&& s.index[s.expiring[i].0] == i
        &&& s.kv.contains_key(s.expiring[i].0)
        &&& s.kv[s.expiring[i].0].expiry == Some(s.expiring[i].1)
    }
    &&& forall|k: Seq<char>| #[trigger] s.index.contains_key(k) ==> {
        &&& s.index[k] < s.expiring.len()
        &&& s.expiring[s.index[k] as int].0 == k
    }
    &&& forall|k: Seq<char>| #[trigger] s.kv.contains_key(k) && s.kv[k].expiry is Some
        ==> s.index.contains_key(k)
}

/// Storing a value under a key that has no expiry entry yet keeps the
/// expiry entries, their positions and the values in agreement.
pub proof fn law_insert_keeps_expiry_index(s: StoreView, key: Seq<char>, v: StoredView, expiry: Option<u128>)
    requires
        expiry_index_consistent(s),
        !s.index.contains_key(key),
        v.expiry == expiry,
        s.expiring.len() < usize::MAX,
    ensures
        expiry_index_consistent(insert_spec(s, key, v, expiry)),
{
    let s2 = insert_spec(s, key, v, expiry);
    assert(!(s.kv.contains_key(key) && s.kv[key].expiry is Some));
    assert forall|i: int| 0 <= i < s.expiring.len() implies s.expiring[i].0 != key by {
        assert(s.index.contains_key(s.expiring[i].0));
    }
    match expiry {
        None => {
            assert forall|i: int| 0 <= i < s2.expiring.len() implies {
                &&& s2.index.contains_key((#[trigger] s2.expiring[i]).0)
                &&& s2.index[s2.expiring[i].0] == i
                &&& s2.kv.contains_key(s2.expiring[i].0)
                &&& s2.kv[s2.expiring[i].0].expiry == Some(s2.expiring[i].1)
            } by {
                assert(s.expiring[i].0 != key);
            }
        },
        Some(t) => {
            let n = s.expiring.len();
            assert forall|i: int| 0 <= i < s2.expiring.len() implies {
                &&& s2.index.contains_key((#[trigger] s2.expiring[i]).0)
                &&& s2.index[s2.expiring[i].0] == i
                &&& s2.kv.contains_key(s2.expiring[i].0)
                &&& s2.kv[s2.expiring[i].0].expiry == Some(s2.expiring[i].1)
            } by {
                if i < n {
                    assert(s2.expiring[i] == s.expiring[i]);
                    assert(s.expiring[i].0 != key);
                } else {
                    assert(s2.expiring[i] == (key, t));
                }
            }
            assert forall|k: Seq<char>| #[trigger] s2.index.contains_key(k) implies {
                &&& s2.index[k] < s2.expiring.len()
                &&& s2.expiring[s2.index[k] as int].0 == k
            } by {
                if k != key {
                    assert(s2.expiring[s.index[k] as int] == s.expiring[s.index[k] as int]);
                }
            }
        },
    }
}

/// The UTF-8 bytes of the base-ten text of `n`.
pub open spec fn decimal_bytes(n: nat) -> Seq<u8> {
    encode_utf8(decimal_chars(n))
}

proof fn lemma_decimal_chars_ascii(n: nat)
    ensures
        is_ascii_chars(decimal_chars(n)),
        decimal_chars(n).len() >= 1,
        forall|i: int| 0 <= i < decimal_chars(n).len() ==> 48 <= #[trigger] (decimal_chars(n)[i] as u32) <= 57,
    decreases n,
{
    if n >= 10 {
        lemma_decimal_chars_ascii(n / 10);
        let s = decimal_chars(n);
        let t = decimal_chars(n / 10);
        assert(s == t.push(digit_char(n % 10)));
        assert forall|i: int| 0 <= i < s.len() implies 48 <= #[trigger] (s[i] as u32) <= 57 by {
            if i < t.len() {
                assert(s[i] == t[i]);
            }
        }
    }
}

pub(crate) proof fn lemma_decimal_bytes(n: nat)
    ensures
        decimal_bytes(n).len() >= 1,
        all_digits(decimal_bytes(n)),
        digits_value(decimal_bytes(n)) == n,
        valid_utf8(decimal_bytes(n)),
        decimal_bytes(n)[0] != 43u8,
        decimal_bytes(n).len() == decimal_chars(n).len(),
    decreases n,
{
    let s = decimal_chars(n);
    let b = decimal_bytes(n);
    lemma_decimal_chars_ascii(n);
    is_ascii_chars_encode_utf8(s);
    encode_utf8_valid_utf8(s);
    assert forall|i: int| 0 <= i < b.len() implies #[trigger] is_digit_byte(b[i]) by {
        assert(b[i] == s[i] as u8);
        assert(48 <= (s[i] as u32) <= 57);
    }
    if n < 10 {
        assert(b[0] == s[0] as u8);
        assert(s[0] == digit_char(n));
        assert((digit_char(n) as u32) == n + 48);
        assert(b.drop_last() =~= Seq::<u8>::empty());
        assert(b.last() == b[0]);
        assert(digits_value(b) == digits_value(b.drop_last()) * 10 + (b.last() - 48) as nat);
    } else {
        lemma_decimal_bytes(n / 10);
        let t = decimal_chars(n / 10);
        let bt = decimal_bytes(n / 10);
        lemma_decimal_chars_ascii(n / 10);
        is_ascii_chars_encode_utf8(t);
        assert(s == t.push(digit_char(n % 10)));
        assert(b.drop_last() =~= bt) by {
            assert forall|i: int| 0 <= i < bt.len() implies b[i] == bt[i] by {
                assert(s[i] == t[i]);
            }
        }
        assert(b.last() == s.last() as u8);
        assert((digit_char(n % 10) as u32) == n % 10 + 48);
        assert(digits_value(b) == digits_value(bt) * 10 + (b.last() - 48) as nat);
        assert((n / 10) * 10 + n % 10 == n);
    }
}

pub open spec fn crlf() -> Seq<u8> {
    seq![13u8, 10u8]
}

/// A bulk string request: `$`, the byte length, `\r\n`, the UTF-8 bytes,
/// `\r\n`.
pub open spec fn bulk_request(item: Seq<char>) -> Seq<u8> {
    seq![36u8] + decimal_bytes(encode_utf8(item).len()) + crlf() + encode_utf8(item) + crlf()
}

/// The bulk strings of the items, one after another.
pub open spec fn bulk_requests(items: Seq<Seq<char>>) -> Seq<u8>
    decreases items.len(),
{
    if items.len() == 0 {
        Seq::empty()
    } else {
        bulk_requests(items.drop_last()) + bulk_request(items.last())
    }
}

/// A command as a client sends it: `*`, the count, `\r\n`, and the
/// arguments as bulk strings.
pub open spec fn array_request(items: Seq<Seq<char>>) -> Seq<u8> {
    seq![42u8] + decimal_bytes(items.len()) + crlf() + bulk_requests(items)
}

/// The arguments as the parser gives them: the command's name upper-cased.
pub open spec fn upper_first(items: Seq<Seq<char>>) -> Seq<Seq<char>> {
    if items.len() == 0 {
        items
    } else {
        items.update(0, ascii_upper(items[0]))
    }
}

proof fn lemma_line_end_at(b: Seq<u8>, p: int, q: int)
    requires
        0 <= p <= q,
        q + 2 < b.len(),
        b[q + 1] == 13u8,
        b[q + 2] == 10u8,
        forall|r: int| p < r <= q ==> b[r] != 13u8,
    ensures
        line_end(b, p) == Some(q),
    decreases q - p,
{
    if p < q {
        lemma_line_end_at(b, p + 1, q);
    }
}

/// `b` holds the bytes `x` from position `at` on.
pub open spec fn holds_at(b: Seq<u8>, at: int, x: Seq<u8>) -> bool {
    0 <= at && at + x.len() <= b.len() && b.subrange(at, at + x.len()) == x
}

/// Reading a count line: the digits of `n` at `start`, then `\r\n`.
proof fn lemma_count_line(b: Seq<u8>, start: int, n: nat)
    requires
        holds_at(b, start, decimal_bytes(n) + crlf()),
        n <= usize::MAX,
    ensures
        line_end(b, start) == Some(start + decimal_bytes(n).len() - 1),
        b.subrange(start, start + decimal_bytes(n).len()) == decimal_bytes(n),
        valid_utf8(decimal_bytes(n)),
        parse_unsigned(decimal_bytes(n), usize::MAX as nat) == Some(n),
{
    let d = decimal_bytes(n);
    let m = d.len() as int;
    lemma_decimal_bytes(n);
    let x = d + crlf();
    assert(b.subrange(start, start + m) =~= d) by {
        assert forall|i: int| 0 <= i < m implies b.subrange(start, start + m)[i] == d[i] by {
            assert(b[start + i] == b.subrange(start, start + x.len())[i]);
            assert(x[i] == d[i]);
        }
    }
    assert(b[start + m] == b.subrange(start, start + x.len())[m]);
    assert(b[start + m + 1] == b.subrange(start, start + x.len())[m + 1]);
    assert forall|r: int| start < r <= start + m - 1 implies b[r] != 13u8 by {
        assert(b[r] == b.subrange(start, start + m)[r - start]);
        assert(is_digit_byte(d[r - start]));
    }
    lemma_line_end_at(b, start, start + m - 1);
    assert(unsigned_body(d) == d);
}

/// A bulk string request without its final `\r\n`: `$`, the byte length,
/// `\r\n`, the UTF-8 bytes.
pub open spec fn bulk_head(item: Seq<char>) -> Seq<u8> {
    seq![36u8] + decimal_bytes(encode_utf8(item).len()) + crlf() + encode_utf8(item)
}

/// Reading a bulk string whose head is found at `pos` (its `$`): what
/// follows the payload is not looked at.
proof fn lemma_bulk_read_head(b: Seq<u8>, pos: int, item: Seq<char>)
    requires
        holds_at(b, pos, bulk_head(item)),
        b.len() <= usize::MAX,
    ensures
        bulk_string_spec(b, pos + 1) == ReadSpec::Done(Ok::<Seq<char>, RedisErrorView>(item), pos + bulk_head(item).len() + 2),
{
    let body = encode_utf8(item);
    let l = body.len();
    let d = decimal_bytes(l);
    let m = d.len() as int;
    let x = bulk_head(item);
    lemma_decimal_bytes(l);
    assert(x =~= seq![36u8] + (d + crlf()) + body);
    assert(holds_at(b, pos + 1, d + crlf())) by {
        assert(b.subrange(pos + 1, pos + 1 + m + 2) =~= (d + crlf())) by {
            assert forall|i: int| 0 <= i < m + 2 implies b.subrange(pos + 1, pos + 1 + m + 2)[i]
                == (d + crlf())[i] by {
                assert(b[pos + 1 + i] == b.subrange(pos, pos + x.len())[1 + i]);
            }
        }
    }
    lemma_count_line(b, pos + 1, l);
    let p = pos + m;
    let body_start = p + 3;
    assert(b.subrange(body_start, body_start + l) =~= body) by {
        assert forall|i: int| 0 <= i < l implies b.subrange(body_start, body_start + l)[i] == body[i] by {
            assert(b[body_start + i] == b.subrange(pos, pos + x.len())[m + 3 + i]);
        }
    }
    encode_utf8_valid_utf8(item);
    encode_utf8_decode_utf8(item);
}

/// Reading a bulk string request found at `pos` (its `$`).
proof fn lemma_bulk_read(b: Seq<u8>, pos: int, item: Seq<char>)
    requires
        holds_at(b, pos, bulk_request(item)),
        b.len() <= usize::MAX,
    ensures
        bulk_string_spec(b, pos + 1) == ReadSpec::Done(Ok::<Seq<char>, RedisErrorView>(item), pos + bulk_request(item).len()),
{
    let x = bulk_request(item);
    let h = bulk_head(item);
    assert(x =~= h + crlf());
    assert(holds_at(b, pos, h)) by {
        assert(b.subrange(pos, pos + h.len()) =~= h) by {
            assert forall|i: int| 0 <= i < h.len() implies b.subrange(pos, pos + h.len())[i] == h[i] by {
                assert(b[pos + i] == b.subrange(pos, pos + x.len())[i]);
            }
        }
    }
    lemma_bulk_read_head(b, pos, item);
}

proof fn lemma_bulk_requests_prefix(items: Seq<Seq<char>>, j: int)
    requires
        0 <= j <= items.len(),
    ensures
        bulk_requests(items.take(j)).len() <= bulk_requests(items).len(),
        bulk_requests(items).subrange(0, bulk_requests(items.take(j)).len() as int) == bulk_requests(
            items.take(j),
        ),
    decreases items.len(),
{
    if j == items.len() {
        assert(items.take(j) =~= items);
        assert(bulk_requests(items).subrange(0, bulk_requests(items).len() as int) =~= bulk_requests(items));
    } else {
        assert(items.drop_last().take(j) =~= items.take(j));
        lemma_bulk_requests_prefix(items.drop_last(), j);
        let a = bulk_requests(items.drop_last());
        let t = bulk_requests(items.take(j));
        assert(bulk_requests(items) == a + bulk_request(items.last()));
        assert(bulk_requests(items).subrange(0, t.len() as int) =~= a.subrange(0, t.len() as int));
    }
}

proof fn lemma_bulk_requests_step(items: Seq<Seq<char>>, i: int)
    requires
        0 <= i < items.len(),
    ensures
        bulk_requests(items.take(i + 1)) == bulk_requests(items.take(i)) + bulk_request(items[i]),
{
    assert(items.take(i + 1).drop_last() =~= items.take(i));
}

#[verifier::rlimit(40)]
proof fn lemma_elements(b: Seq<u8>, items: Seq<Seq<char>>, i: int)
    requires
        0 <= i <= items.len(),
        b.len() <= usize::MAX,
        array_request(items).len() <= b.len(),
        b.subrange(0, array_request(items).len() as int) == array_request(items),
    ensures
        ({
            let h = 1 + decimal_bytes(items.len()).len() + 2;
            array_elements_spec(
                b,
                1,
                (h + bulk_requests(items.take(i)).len()) as int,
                i as nat,
                items.len(),
                upper_first(items).take(i),
            ) == ReadSpec::Done(
                Ok::<Seq<Seq<char>>, RedisErrorView>(upper_first(items)),
                array_request(items).len() as int,
            )
        }),
    decreases items.len() - i,
{
    let a = array_request(items);
    let n = items.len();
    let hd = seq![42u8] + decimal_bytes(n) + crlf();
    let h = (1 + decimal_bytes(n).len() + 2) as int;
    assert(a == hd + bulk_requests(items));
    assert(hd.len() == h);
    if i == n {
        assert(items.take(i) =~= items);
        assert(upper_first(items).take(i) =~= upper_first(items));
    } else {
        let pos = (h + bulk_requests(items.take(i)).len()) as int;
        lemma_bulk_requests_step(items, i);
        lemma_bulk_requests_prefix(items, i + 1);
        let bi = bulk_request(items[i]);
        let ti = bulk_requests(items.take(i));
        let all = bulk_requests(items);
        assert(holds_at(b, pos, bi)) by {
            assert(b.subrange(pos, pos + bi.len()) =~= bi) by {
                assert forall|k: int| 0 <= k < bi.len() implies b.subrange(pos, pos + bi.len())[k]
                    == bi[k] by {
                    assert(b[pos + k] == b.subrange(0, a.len() as int)[pos + k]);
                    assert(a[pos + k] == all[ti.len() + k]);
                    assert(all[ti.len() + k] == all.subrange(
                        0,
                        bulk_requests(items.take(i + 1)).len() as int,
                    )[ti.len() + k]);
                    assert(bulk_requests(items.take(i + 1))[ti.len() + k] == bi[k]);
                }
            }
        }
        lemma_bulk_read(b, pos, items[i]);
        assert(b[pos] == b.subrange(pos, pos + bi.len())[0]);
        lemma_elements(b, items, i + 1);
        assert(upper_first(items).take(i).push(
            if i == 0 {
                ascii_upper(items[i])
            } else {
                items[i]
            },
        ) =~= upper_first(items).take(i + 1));
    }
}

/// What a client sends as a command parses back to its arguments, the
/// command's name upper-cased, reading exactly the request whatever bytes
/// follow it.
#[verifier::rlimit(40)]
pub proof fn law_parse_request(items: Seq<Seq<char>>, rest: Seq<u8>)
    requires
        (array_request(items) + rest).len() <= usize::MAX,
        items.len() <= usize::MAX,
    ensures
        resp_array_spec(array_request(items) + rest, 1) == ReadSpec::Done(
            Ok::<Seq<Seq<char>>, RedisErrorView>(upper_first(items)),
            array_request(items).len() as int,
        ),
{
    let a = array_request(items);
    let b = a + rest;
    let n = items.len();
    let d = decimal_bytes(n);
    lemma_decimal_bytes(n);
    assert(b.subrange(0, a.len() as int) =~= a);
    assert(holds_at(b, 1, d + crlf())) by {
        assert(b.subrange(1, 1 + (d + crlf()).len() as int) =~= d + crlf());
    }
    lemma_count_line(b, 1, n);
    assert(items.take(0) =~= Seq::<Seq<char>>::empty());
    assert(upper_first(items).take(0) =~= Seq::<Seq<char>>::empty());
    lemma_elements(b, items, 0);
}

proof fn lemma_encode_utf8_concat(a: Seq<char>, b: Seq<char>)
    ensures
        encode_utf8(a + b) == encode_utf8(a) + encode_utf8(b),
    decreases a.len(),
{
    if a.len() > 0 {
        lemma_encode_utf8_concat(a.drop_first(), b);
        assert((a + b).drop_first() =~= a.drop_first() + b);
        assert((a + b)[0] == a[0]);
    } else {
        assert(a + b =~= b);
    }
}

proof fn lemma_encode_ascii_literal(s: Seq<char>, bytes: Seq<u8>)
    requires
        s.len() == bytes.len(),
        is_ascii_chars(s),
        forall|i: int| 0 <= i < s.len() ==> (#[trigger] s[i] as u8) == bytes[i],
    ensures
        encode_utf8(s) == bytes,
{
    is_ascii_chars_encode_utf8(s);
    assert(encode_utf8(s) =~= bytes) by {
        assert forall|i: int| 0 <= i < s.len() implies encode_utf8(s)[i] == bytes[i] by {
            assert(encode_utf8(s)[i] == s[i] as u8);
        }
    }
}

/// Where the bulk string of argument `i` starts in a request.
pub open spec fn element_start(items: Seq<Seq<char>>, i: int) -> int {
    (1 + decimal_bytes(items.len()).len() + 2 + bulk_requests(items.take(i)).len()) as int
}

/// The length of the line `$<length>\r\n` that opens the bulk string of
/// argument `i`.
pub open spec fn element_header_len(items: Seq<Seq<char>>, i: int) -> int {
    (1 + decimal_bytes(encode_utf8(items[i]).len()).len() + 2) as int
}

/// A cut after the first `c` bytes of a request, in or after argument `i`,
/// that the server waits out: inside the count line, inside the line that
/// opens argument `i`'s bulk string (before its final `\n`), or, for an
/// argument other than the last, after its payload.
pub open spec fn cut_waits(items: Seq<Seq<char>>, i: int, c: int) -> bool {
    &&& 0 <= i < items.len()
    &&& {
        ||| i == 0 && 1 <= c < element_start(items, 0)
        ||| element_start(items, i) <= c < element_start(items, i) + element_header_len(items, i)
        ||| i + 1 < items.len() && element_start(items, i) + bulk_head(items[i]).len() <= c
            < element_start(items, i + 1)
    }
}

proof fn lemma_no_line_end(b: Seq<u8>, p: int)
    requires
        0 <= p,
        forall|r: int| p + 2 <= r < b.len() ==> b[r] != 10u8,
    ensures
        line_end(b, p) is None,
    decreases b.len() - p,
{
    if p + 2 < b.len() {
        lemma_no_line_end(b, p + 1);
    }
}

#[verifier::rlimit(40)]
proof fn lemma_elements_prefix(b: Seq<u8>, items: Seq<Seq<char>>, j: int, i: int)
    requires
        0 <= j <= i < items.len(),
        b.len() <= usize::MAX,
        element_start(items, i) <= b.len() <= array_request(items).len(),
        forall|k: int| 0 <= k < b.len() ==> b[k] == #[trigger] array_request(items)[k],
    ensures
        array_elements_spec(b, 1, element_start(items, j), j as nat, items.len(), upper_first(items).take(j))
            == array_elements_spec(
            b,
            1,
            element_start(items, i),
            i as nat,
            items.len(),
            upper_first(items).take(i),
        ),
    decreases i - j,
{
    if j < i {
        let a = array_request(items);
        let n = items.len();
        let hd = seq![42u8] + decimal_bytes(n) + crlf();
        assert(a == hd + bulk_requests(items));
        let pos = element_start(items, j);
        lemma_bulk_requests_step(items, j);
        lemma_bulk_requests_prefix(items, j + 1);
        lemma_bulk_requests_prefix(items, i);
        assert(items.take(i).take(j + 1) =~= items.take(j + 1));
        lemma_bulk_requests_prefix(items.take(i), j + 1);
        let bi = bulk_request(items[j]);
        let ti = bulk_requests(items.take(j));
        let all = bulk_requests(items);
        assert(pos + bi.len() <= element_start(items, i));
        assert(holds_at(b, pos, bi)) by {
            assert(b.subrange(pos, pos + bi.len()) =~= bi) by {
                assert forall|k: int| 0 <= k < bi.len() implies b.subrange(pos, pos + bi.len())[k]
                    == bi[k] by {
                    assert(b[pos + k] == a[pos + k]);
                    assert(a[pos + k] == all[ti.len() + k]);
                    assert(all[ti.len() + k] == all.subrange(
                        0,
                        bulk_requests(items.take(j + 1)).len() as int,
                    )[ti.len() + k]);
                    assert(bulk_requests(items.take(j + 1))[ti.len() + k] == bi[k]);
                }
            }
        }
        lemma_bulk_read(b, pos, items[j]);
        assert(b[pos] == b.subrange(pos, pos + bi.len())[0]);
        lemma_elements_prefix(b, items, j + 1, i);
        assert(upper_first(items).take(j).push(
            if j == 0 {
                ascii_upper(items[j])
            } else {
                items[j]
            },
        ) =~= upper_first(items).take(j + 1));
    }
}

/// The bytes of argument `i` in a request, and where the next one starts.
#[verifier::rlimit(40)]
proof fn lemma_element_bytes(items: Seq<Seq<char>>, i: int)
    requires
        0 <= i < items.len(),
    ensures
        element_start(items, i) + bulk_request(items[i]).len() == element_start(items, i + 1),
        element_start(items, i + 1) <= array_request(items).len(),
        bulk_request(items[i]) == bulk_head(items[i]) + crlf(),
        bulk_head(items[i]).len() == element_header_len(items, i) + encode_utf8(items[i]).len(),
        element_start(items, 0) == 1 + decimal_bytes(items.len()).len() + 2,
        forall|k: int| 0 <= k < bulk_request(items[i]).len() ==> array_request(items)[element_start(items, i) + k]
            == #[trigger] bulk_request(items[i])[k],
        forall|k: int| 0 <= k < element_start(items, 0) ==> #[trigger] array_request(items)[k]
            == (seq![42u8] + decimal_bytes(items.len()) + crlf())[k],
{
    let a = array_request(items);
    let hd = seq![42u8] + decimal_bytes(items.len()) + crlf();
    let all = bulk_requests(items);
    assert(a == hd + all);
    assert(items.take(0) =~= Seq::<Seq<char>>::empty());
    lemma_bulk_requests_prefix(items, i + 1);
    lemma_bulk_requests_step(items, i);
    let bi = bulk_request(items[i]);
    let ti = bulk_requests(items.take(i));
    assert(bi =~= bulk_head(items[i]) + crlf());
    assert forall|k: int| 0 <= k < bi.len() implies a[element_start(items, i) + k] == #[trigger] bi[k] by {
        assert(a[element_start(items, i) + k] == all[ti.len() + k]);
        assert(all[ti.len() + k] == all.subrange(0, bulk_requests(items.take(i + 1)).len() as int)[ti.len() + k]);
        assert(bulk_requests(items.take(i + 1))[ti.len() + k] == bi[k]);
    }
}

/// A request cut inside its count line is read as out of bytes.
#[verifier::rlimit(40)]
proof fn lemma_cut_count(items: Seq<Seq<char>>, c: int)
    requires
        items.len() > 0,
        1 <= c < element_start(items, 0),
    ensures
        resp_array_spec(array_request(items).take(c), 1) matches ReadSpec::Done(Err(RedisErrorView::OutOfBytes(_, _)), _),
{
    let a = array_request(items);
    let b = a.take(c);
    let d = decimal_bytes(items.len());
    let hd = seq![42u8] + d + crlf();
    lemma_element_bytes(items, 0);
    lemma_decimal_bytes(items.len());
    assert forall|r: int| 1 + 2 <= r < b.len() implies b[r] != 10u8 by {
        assert(b[r] == a[r]);
        assert(a[r] == hd[r]);
        if r <= d.len() {
            assert(hd[r] == d[r - 1]);
            assert(is_digit_byte(d[r - 1]));
        }
    }
    lemma_no_line_end(b, 1);
}

/// The count line and the arguments before argument `i` of a request cut at
/// `c` (at or after where argument `i` starts) read as in the whole request.
#[verifier::rlimit(40)]
proof fn lemma_cut_reaches(items: Seq<Seq<char>>, i: int, c: int)
    requires
        0 <= i < items.len(),
        element_start(items, i) <= c <= array_request(items).len(),
        array_request(items).len() <= usize::MAX,
        items.len() <= usize::MAX,
    ensures
        resp_array_spec(array_request(items).take(c), 1) == array_elements_spec(
            array_request(items).take(c),
            1,
            element_start(items, i),
            i as nat,
            items.len(),
            upper_first(items).take(i),
        ),
{
    let a = array_request(items);
    let b = a.take(c);
    let cnt = items.len();
    let d = decimal_bytes(cnt);
    let hd = seq![42u8] + d + crlf();
    lemma_element_bytes(items, i);
    lemma_element_bytes(items, 0);
    lemma_decimal_bytes(cnt);
    lemma_bulk_requests_prefix(items, i);
    assert(element_start(items, 0) <= element_start(items, i));
    assert(holds_at(b, 1, d + crlf())) by {
        assert(b.subrange(1, 1 + (d + crlf()).len() as int) =~= d + crlf()) by {
            assert forall|k: int| 0 <= k < d.len() + 2 implies b.subrange(1, 1 + (d + crlf()).len() as int)[k]
                == (d + crlf())[k] by {
                assert(b[1 + k] == a[1 + k]);
                assert(a[1 + k] == hd[1 + k]);
            }
        }
    }
    lemma_count_line(b, 1, cnt);
    assert(upper_first(items).take(0) =~= Seq::<Seq<char>>::empty());
    assert forall|k: int| 0 <= k < b.len() implies b[k] == #[trigger] a[k] by {}
    lemma_elements_prefix(b, items, 0, i);
}

/// A request cut inside the line that opens argument `i` is read as out of
/// bytes.
#[verifier::rlimit(40)]
proof fn lemma_cut_header(items: Seq<Seq<char>>, i: int, c: int)
    requires
        0 <= i < items.len(),
        element_start(items, i) <= c < element_start(items, i) + element_header_len(items, i),
        array_request(items).len() <= usize::MAX,
        items.len() <= usize::MAX,
    ensures
        resp_array_spec(array_request(items).take(c), 1) matches ReadSpec::Done(Err(RedisErrorView::OutOfBytes(_, _)), _),
{
    let a = array_request(items);
    let b = a.take(c);
    let st = element_start(items, i);
    let bi = bulk_request(items[i]);
    lemma_element_bytes(items, i);
    lemma_cut_reaches(items, i, c);
    let l = encode_utf8(items[i]).len();
    lemma_decimal_bytes(l);
    let di = decimal_bytes(l);
    assert(bi =~= seq![36u8] + di + crlf() + encode_utf8(items[i]) + crlf());
    if c > st {
        assert(b[st] == a[st]);
        assert(a[st] == bi[0]);
        assert forall|r: int| st + 1 + 2 <= r < b.len() implies b[r] != 10u8 by {
            assert(b[r] == a[r]);
            assert(a[r] == bi[r - st]);
            if r - st <= di.len() {
                assert(bi[r - st] == di[r - st - 1]);
                assert(is_digit_byte(di[r - st - 1]));
            } else {
                assert(bi[r - st] == 13u8);
            }
        }
        lemma_no_line_end(b, st + 1);
    }
}

/// A request cut after the payload of an argument other than the last is
/// read as out of bytes.
#[verifier::rlimit(40)]
proof fn lemma_cut_after_payload(items: Seq<Seq<char>>, i: int, c: int)
    requires
        0 <= i,
        i + 1 < items.len(),
        element_start(items, i) + bulk_head(items[i]).len() <= c < element_start(items, i + 1),
        array_request(items).len() <= usize::MAX,
        items.len() <= usize::MAX,
    ensures
        resp_array_spec(array_request(items).take(c), 1) matches ReadSpec::Done(Err(RedisErrorView::OutOfBytes(_, _)), _),
{
    let a = array_request(items);
    let b = a.take(c);
    let st = element_start(items, i);
    let bi = bulk_request(items[i]);
    let h = bulk_head(items[i]);
    lemma_element_bytes(items, i);
    lemma_cut_reaches(items, i, c);
    assert(holds_at(b, st, h)) by {
        assert(b.subrange(st, st + h.len()) =~= h) by {
            assert forall|k: int| 0 <= k < h.len() implies b.subrange(st, st + h.len())[k] == h[k] by {
                assert(b[st + k] == a[st + k]);
                assert(a[st + k] == bi[k]);
            }
        }
    }
    lemma_bulk_read_head(b, st, items[i]);
    assert(b[st] == h[0]);
    let q = st + h.len() + 2;
    assert(q == element_start(items, i + 1));
    assert(q >= b.len());
    let got = upper_first(items).take(i);
    let x = if i == 0 { ascii_upper(items[i]) } else { items[i] };
    assert(array_elements_spec(b, 1, q, (i + 1) as nat, items.len(), got.push(x)) matches ReadSpec::Done(
        Err(RedisErrorView::OutOfBytes(_, _)),
        _,
    ));
    assert(array_elements_spec(b, 1, st, i as nat, items.len(), got) == array_elements_spec(
        b,
        1,
        q,
        (i + 1) as nat,
        items.len(),
        got.push(x),
    ));
}

/// A request cut inside its count line, inside the line that opens one of
/// its bulk strings, or after the payload of an argument other than the
/// last is read as incomplete: the parser reports that it is out of bytes,
/// and handling it answers nothing, refuses nothing, keeps the bytes for the
/// next read and leaves the store as it was. So a request that arrives in
/// pieces cut at such places is handled as if it came whole.
#[verifier::rlimit(40)]
pub proof fn law_cut_request_waits(
    items: Seq<Seq<char>>,
    i: int,
    c: int,
    n: nat,
    s: StoreView,
    now: u128,
)
    requires
        cut_waits(items, i, c),
        array_request(items).len() <= usize::MAX,
        items.len() <= usize::MAX,
        1 <= n <= c,
    ensures
        resp_array_spec(array_request(items).take(c), 1) matches ReadSpec::Done(
            Err(RedisErrorView::OutOfBytes(_, _)),
            _,
        ),
        ({
            let (st, acc, s2) = handle_read_spec(array_request(items).take(c), n, s, now);
            &&& acc == array_request(items).take(c)
            &&& s2 == s
            &&& st.response is None
            &&& st.error is None
            &&& !st.aborted
        }),
{
    let a = array_request(items);
    lemma_element_bytes(items, i);
    lemma_element_bytes(items, 0);
    assert(a[0] == 42u8);
    if i == 0 && 1 <= c < element_start(items, 0) {
        lemma_cut_count(items, c);
    } else if element_start(items, i) <= c < element_start(items, i) + element_header_len(items, i) {
        lemma_cut_header(items, i, c);
    } else {
        lemma_cut_after_payload(items, i, c);
    }
    assert(a.take(c)[0] == 42u8);
}

/// What the serializer writes for a bulk string answer, read back by the
/// bulk string parser, is the answer's text, reading exactly the answer
/// whatever bytes follow it.
pub proof fn law_bulk_answer_parses_back(s: Seq<char>, rest: Seq<u8>)
    requires
        (encode_utf8(resp_text(ResponseView::BulkString(s))) + rest).len() <= usize::MAX,
    ensures
        bulk_string_spec(encode_utf8(resp_text(ResponseView::BulkString(s))) + rest, 1) == ReadSpec::Done(
            Ok::<Seq<char>, RedisErrorView>(s),
            encode_utf8(resp_text(ResponseView::BulkString(s))).len() as int,
        ),
{
    reveal_strlit("$");
    reveal_strlit("\r\n");
    let l = encode_utf8(s).len();
    let dollar = "$"@;
    let nl = "\r\n"@;
    assert(dollar == seq!['$']);
    assert(nl == seq!['\r', '\n']);
    assert(is_ascii_chars(dollar));
    assert(is_ascii_chars(nl));
    lemma_encode_ascii_literal(dollar, seq![36u8]);
    lemma_encode_ascii_literal(nl, crlf());
    lemma_encode_utf8_concat(dollar, decimal_chars(l));
    lemma_encode_utf8_concat(dollar + decimal_chars(l), nl);
    lemma_encode_utf8_concat(dollar + decimal_chars(l) + nl, s);
    lemma_encode_utf8_concat(dollar + decimal_chars(l) + nl + s, nl);
    let a = encode_utf8(resp_text(ResponseView::BulkString(s)));
    assert(a == bulk_request(s));
    let b = a + rest;
    assert(holds_at(b, 0, bulk_request(s))) by {
        assert(b.subrange(0, a.len() as int) =~= a);
    }
    lemma_bulk_read(b, 0, s);
}

/// An entry inserted among well-formed children is found again under its
/// id, unless the id ends inside an existing fragment.
pub proof fn law_stream_lookup_after_insert(children: Seq<NodeView>, f: Seq<char>, d: Map<String, String>)
    requires
        children_wf(children),
        f.len() > 0,
        !ends_inside_fragment(children, f),
    ensures
        lookup_children(insert_children(children, f, d), f) == Some(d),
    decreases f.len(),
{
    let r = insert_children(children, f, d);
    match child_index(children, f[0]) {
        None => {
            let j = children.len() as int;
            assert(r == children.push(leaf(f, d)));
            assert forall|i: int| 0 <= i < r.len() && i != j implies !(r[i].prefix.len() > 0
                && r[i].prefix[0] == f[0]) by {
                assert(r[i] == children[i]);
            }
            lemma_child_index_at(r, j, f[0]);
            assert(f.take(f.len() as int) =~= f);
            assert(r[j] == leaf(f, d));
            assert(lookup_children(r, f) == Some(d));
        },
        Some(j) => {
            let c = children[j];
            assert(c.prefix.len() > 0 && c.prefix[0] == f[0]);
            let k = common_prefix_len(c.prefix, f, 0);
            lemma_common_prefix_len(c.prefix, f, 0);
            assert(k >= 1);
            assert forall|i: int| 0 <= i < r.len() && i != j implies !(r[i].prefix.len() > 0
                && r[i].prefix[0] == f[0]) by {
                assert(r[i] == children[i]);
                assert(children[i].prefix[0] != children[j].prefix[0]);
            }
            if k >= c.prefix.len() {
                assert(c.prefix.len() == k);
                assert(f.take(k as int) =~= c.prefix);
                if k >= f.len() {
                    lemma_child_index_at(r, j, f[0]);
                    assert(r[j] == NodeView { data: d, ..c });
                    assert(lookup_children(r, f) == Some(d));
                } else {
                    assert(node_wf(c));
                    assert(f.skip(k as int).len() > 0);
                    law_stream_lookup_after_insert(c.children, f.skip(k as int), d);
                    lemma_child_index_at(r, j, f[0]);
                    assert(r[j] == NodeView { children: insert_children(c.children, f.skip(k as int), d), ..c });
                    assert(lookup_children(r, f) == lookup_children(r[j].children, f.skip(k as int)));
                    assert(lookup_children(r, f) == Some(d));
                }
            } else {
                assert(k < f.len());
                let mid = r[j];
                assert(mid.prefix == c.prefix.take(k as int));
                assert(mid.prefix[0] == f[0]);
                lemma_child_index_at(r, j, f[0]);
                assert(f.take(k as int) =~= mid.prefix);
                let rest = f.skip(k as int);
                let kids = mid.children;
                assert(kids[0].prefix == c.prefix.skip(k as int));
                assert(kids[0].prefix[0] == c.prefix[k as int]);
                assert(rest[0] == f[k as int]);
                assert(kids[0].prefix[0] != rest[0]);
                lemma_child_index_at(kids, 1, rest[0]);
                assert(rest.take(rest.len() as int) =~= rest);
                assert(kids[1] == leaf(rest, d));
                assert(lookup_children(kids, rest) == Some(d));
                assert(lookup_children(r, f) == lookup_children(kids, rest));
            }
        },
    }
}

/// Inserting an id keeps the tree well formed, unless the id ends inside an
/// existing fragment: every operation on a stream leaves a tree in which the
/// next insert can search.
pub proof fn law_stream_insert_keeps_wf(children: Seq<NodeView>, f: Seq<char>, d: Map<String, String>)
    requires
        children_wf(children),
        f.len() > 0,
        is_ascii_chars(f),
        !ends_inside_fragment(children, f),
    ensures
        children_wf(insert_children(children, f, d)),
    decreases f.len(),
{
    let r = insert_children(children, f, d);
    match child_index(children, f[0]) {
        None => {
            assert(r == children.push(leaf(f, d)));
            assert forall|i: int| 0 <= i < children.len() implies children[i].prefix[0] != f[0] by {
                assert(children[i].prefix.len() > 0);
                if children[i].prefix[0] == f[0] {
                    assert(0 <= i < children.len() && children[i].prefix.len() > 0
                        && children[i].prefix[0] == f[0]);
                }
            }
            assert(node_wf(leaf(f, d)));
            assert(children_distinct(r));
            assert forall|i: int| 0 <= i < r.len() implies node_wf(#[trigger] r[i]) by {
                if i < children.len() {
                    assert(r[i] == children[i]);
                }
            }
        },
        Some(j) => {
            let c = children[j];
            assert(c.prefix.len() > 0 && c.prefix[0] == f[0]);
            assert(node_wf(c));
            let k = common_prefix_len(c.prefix, f, 0);
            lemma_common_prefix_len(c.prefix, f, 0);
            assert(k >= 1);
            if k >= c.prefix.len() {
                if k >= f.len() {
                    let c2 = NodeView { data: d, ..c };
                    assert(r == children.update(j, c2));
                    assert(node_wf(c2));
                } else {
                    let rest = f.skip(k as int);
                    assert(is_ascii_chars(rest)) by {
                        assert forall|i: int| 0 <= i < rest.len() implies '\0' <= #[trigger] rest[i]
                            <= '\u{7f}' by {
                            assert(rest[i] == f[i + k]);
                        }
                    }
                    assert(children_wf(c.children));
                    law_stream_insert_keeps_wf(c.children, rest, d);
                    let c2 = NodeView { children: insert_children(c.children, rest, d), ..c };
                    assert(r == children.update(j, c2));
                    assert(node_wf(c2));
                }
            } else {
                assert(k < f.len());
                let mid_prefix = c.prefix.take(k as int);
                let suffix = NodeView { prefix: c.prefix.skip(k as int), ..c };
                let fresh = leaf(f.skip(k as int), d);
                let mid = NodeView {
                    prefix: mid_prefix,
                    data: Map::empty(),
                    children: seq![suffix, fresh],
                };
                assert(r == children.update(j, mid));
                assert(is_ascii_chars(mid_prefix)) by {
                    assert forall|i: int| 0 <= i < mid_prefix.len() implies '\0'
                        <= #[trigger] mid_prefix[i] <= '\u{7f}' by {
                        assert(mid_prefix[i] == c.prefix[i]);
                    }
                }
                assert(is_ascii_chars(suffix.prefix)) by {
                    assert forall|i: int| 0 <= i < suffix.prefix.len() implies '\0'
                        <= #[trigger] suffix.prefix[i] <= '\u{7f}' by {
                        assert(suffix.prefix[i] == c.prefix[i + k]);
                    }
                }
                assert(is_ascii_chars(fresh.prefix)) by {
                    assert forall|i: int| 0 <= i < fresh.prefix.len() implies '\0'
                        <= #[trigger] fresh.prefix[i] <= '\u{7f}' by {
                        assert(fresh.prefix[i] == f[i + k]);
                    }
                }
                assert(node_wf(suffix));
                assert(node_wf(fresh));
                assert(suffix.prefix[0] == c.prefix[k as int]);
                assert(fresh.prefix[0] == f[k as int]);
                assert(children_distinct(mid.children));
                assert(node_wf(mid));
                assert(mid.prefix[0] == c.prefix[0]);
            }
            assert(children_distinct(r)) by {
                assert forall|i: int| 0 <= i < r.len() && i != j implies r[i] == children[i] by {}
            }
            assert forall|i: int| 0 <= i < r.len() implies node_wf(#[trigger] r[i]) by {
                if i != j {
                    assert(r[i] == children[i]);
                }
            }
        },
    }
}

/// At the root: an entry inserted into a stream is found again under its
/// id, for a non-empty id that does not end inside an existing fragment (an
/// empty id is stored, but no lookup reaches an empty fragment).
pub proof fn law_stream_insert_then_lookup(root: NodeView, id: Seq<char>, d: Map<String, String>)
    requires
        node_wf(root),
        insert_ok(root, id),
        id.len() > 0,
        !ends_inside_fragment(root.children, id),
    ensures
        lookup_children(insert_children(root.children, id, d), id) == Some(d),
{
    law_stream_lookup_after_insert(root.children, id, d);
}

} // verus!
