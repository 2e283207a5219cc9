//! What LRANGE gives of a list, in terms of the list itself.

use vstd::prelude::*;
use crate::data_store::{StoreView, lrange_spec};
use crate::redis_error::RedisErrorView;

verus! {

/// The position an in-range index names in a list of length `len`: a
/// non-negative index is itself, a negative one counts from the end (-1 is
/// the last element).
pub open spec fn index_position(i: int, len: int) -> int {
    if i < 0 {
        len + i
    } else {
        i
    }
}

/// LRANGE with indices within the list (from `-len` to `len - 1`) gives the
/// elements from the position `start` names to the one `stop` names, both
/// included, and nothing when `start` names a later element than `stop`.
pub proof fn law_lrange_indices(s: StoreView, key: Seq<char>, start: i32, stop: i32)
    requires
        s.kv.contains_key(key),
        s.kv[key].val is List,
        s.kv[key].val->List_0.len() <= i32::MAX,
        -(s.kv[key].val->List_0.len() as int) <= start < s.kv[key].val->List_0.len(),
        -(s.kv[key].val->List_0.len() as int) <= stop < s.kv[key].val->List_0.len(),
    ensures
        ({
            let l = s.kv[key].val->List_0;
            let a = index_position(start as int, l.len() as int);
            let b = index_position(stop as int, l.len() as int);
            lrange_spec(s, key, start, stop) == Ok::<Seq<Seq<char>>, RedisErrorView>(
                if a <= b { l.subrange(a, b + 1) } else { Seq::empty() },
            )
        }),
{
    let l = s.kv[key].val->List_0;
    assert(l.len() as i32 == l.len());
}

/// A stop past the end of the list is the last element.
pub proof fn law_lrange_stop_past_end(s: StoreView, key: Seq<char>, start: i32, stop: i32)
    requires
        s.kv.contains_key(key),
        s.kv[key].val is List,
        s.kv[key].val->List_0.len() <= i32::MAX,
        stop >= s.kv[key].val->List_0.len(),
    ensures
        lrange_spec(s, key, start, stop) == lrange_spec(
            s,
            key,
            start,
            (s.kv[key].val->List_0.len() - 1) as i32,
        ),
{
    let l = s.kv[key].val->List_0;
    assert(l.len() as i32 == l.len());
    if l.len() > 0 {
        assert(((l.len() - 1) as i32) as int == l.len() - 1);
    }
}

/// A start before the beginning of the list is the first element.
pub proof fn law_lrange_start_before_begin(s: StoreView, key: Seq<char>, start: i32, stop: i32)
    requires
        s.kv.contains_key(key),
        s.kv[key].val is List,
        s.kv[key].val->List_0.len() <= i32::MAX,
        start < -(s.kv[key].val->List_0.len() as int),
    ensures
        lrange_spec(s, key, start, stop) == lrange_spec(s, key, 0i32, stop),
{
    let l = s.kv[key].val->List_0;
    assert(l.len() as i32 == l.len());
}

} // verus!
