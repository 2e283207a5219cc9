//! The key-value store: string and list values, optional expiry times, and
//! the clients blocked on a list (BLPOP) waiting for pushes.
//!
//! Times are milliseconds on the server's monotonic clock; the caller reads
//! the clock and passes the current time in.

use vstd::prelude::*;
use vstd::hash_map::StringHashMap;
use std::collections::VecDeque;
use tokio::sync::oneshot;
use vstd::utf8::encode_utf8;
use crate::parser::texts;
use crate::decimal::{parse_unsigned, parse_u64};
use crate::redis_error::{RedisError, RedisErrorView, io_error_other};

verus! {

broadcast use {vstd::hash_map::group_hash_map_axioms, vstd::std_specs::vecdeque::group_vec_dequeue_axioms};

/// `tokio::sync::oneshot::Sender`, the half of a channel that hands a value
/// to a blocked client.
#[verifier::external_type_specification]
#[verifier::external_body]
#[verifier::reject_recursive_types(T)]
pub struct ExOneshotSender<T>(oneshot::Sender<T>);

/// `tokio::sync::oneshot::Receiver`, the half of a channel that a blocked
/// client waits on.
#[verifier::external_type_specification]
#[verifier::external_body]
#[verifier::reject_recursive_types(T)]
pub struct ExOneshotReceiver<T>(oneshot::Receiver<T>);

/// `tokio::sync::oneshot::error::RecvError`, the output of a receiver's
/// `Future` impl; Verus needs it declared wherever a receiver stands.
#[verifier::external_type_specification]
#[verifier::external_body]
pub struct ExOneshotRecvError(oneshot::error::RecvError);

/// The channel a sender belongs to: the state that a pair made by one call of
/// `oneshot::channel` shares, and no other sender or receiver.
pub uninterp spec fn sender_channel(tx: oneshot::Sender<Vec<String>>) -> int;

/// The channel a receiver belongs to.
pub uninterp spec fn receiver_channel(rx: oneshot::Receiver<Vec<String>>) -> int;

/// The message of channel `ch`, as character sequences: what its receiver
/// gets if it gets anything (a oneshot channel carries at most one value,
/// since `send` consumes its sender).
pub uninterp spec fn channel_message(ch: int) -> Seq<Seq<char>>;

/// Calls `tokio::sync::oneshot::channel`, which makes a sender and a
/// receiver of one new channel.
#[verifier::external_body]
fn oneshot_channel() -> (r: (oneshot::Sender<Vec<String>>, oneshot::Receiver<Vec<String>>))
    ensures
        sender_channel(r.0) == receiver_channel(r.1),
{
    oneshot::channel()
}

/// Calls `tokio::sync::oneshot::Sender::send`: on `Ok`, `value` is stored in
/// the sender's channel for its receiver; on `Err` the receiver is gone (it
/// will never get a value) and `value` is handed back. Which of the two
/// happens is not stated.
#[verifier::external_body]
fn oneshot_send(tx: oneshot::Sender<Vec<String>>, value: Vec<String>) -> (r: Result<
    (),
    Vec<String>,
>)
    ensures
        match r {
            Ok(()) => channel_message(sender_channel(tx)) == texts(value@),
            Err(v) => v@ == value@ && channel_message(sender_channel(tx)) == texts(value@),
        },
{
    tx.send(value)
}

/// A value of the store.
#[derive(Clone)]
pub enum RedisValue {
    StringVal(String),
    ListVal(VecDeque<String>),
}

/// A stored value and the time (in milliseconds) at which it expires.
#[derive(Clone)]
pub struct StoredVal {
    pub val: RedisValue,
    pub expiry: Option<u128>,
}

/// The end of a list that a push adds to.
pub enum PushType {
    Left,
    Right,
}

/// A client blocked on a list: the channel that receives `[key, element]`
/// and the time at which it stops waiting.
pub struct BlpopData {
    pub channel: oneshot::Sender<Vec<String>>,
    pub deadline: u128,
}

/// An option of the SET command, with its argument: EX (seconds) and PX
/// (milliseconds).
pub enum SetOptions {
    EX(String),
    PX(String),
}

pub type SetOptionList = Vec<SetOptions>;

/// A value, its texts as character sequences.
pub enum ValueView {
    Str(Seq<char>),
    List(Seq<Seq<char>>),
}

impl View for RedisValue {
    type V = ValueView;

    open spec fn view(&self) -> ValueView {
        match self {
            RedisValue::StringVal(s) => ValueView::Str(s@),
            RedisValue::ListVal(l) => ValueView::List(texts(l@)),
        }
    }
}

pub struct StoredView {
    pub val: ValueView,
    pub expiry: Option<u128>,
}

impl View for StoredVal {
    type V = StoredView;

    open spec fn view(&self) -> StoredView {
        StoredView { val: self.val@, expiry: self.expiry }
    }
}

/// The store as mathematical values: the keys and their values, the entries
/// that record keys with an expiry (in the order they were added), the
/// position recorded for each such key, and the clients waiting on each list.
pub struct StoreView {
    pub kv: Map<Seq<char>, StoredView>,
    pub expiring: Seq<(Seq<char>, u128)>,
    pub index: Map<Seq<char>, usize>,
    pub waiters: Map<Seq<char>, Seq<BlpopData>>,
}

/// The store. `list_waiters` maps a list's key to the slot of its queue of
/// blocked clients in `waiter_queues`. The queues sit in slots rather than
/// in the map itself: a push must take clients out of a queue in place, and
/// of the maps with a specification, std's `HashMap` states its effects only
/// for keys that vstd knows to obey its key model (not `String`), while
/// vstd's `StringHashMap` can neither hand a value out nor change one in
/// place; a queue cannot be copied out either, since a sender is not `Clone`.
pub struct Store {
    pub kv: StringHashMap<StoredVal>,
    pub keys_with_expiry: Vec<(String, u128)>,
    pub index_map: StringHashMap<usize>,
    pub list_waiters: StringHashMap<usize>,
    pub waiter_queues: Vec<VecDeque<BlpopData>>,
}

impl View for Store {
    type V = StoreView;

    open spec fn view(&self) -> StoreView {
        StoreView {
            kv: self.kv@.map_values(|v: StoredVal| v@),
            expiring: self.keys_with_expiry@.map_values(|e: (String, u128)| (e.0@, e.1)),
            index: self.index_map@,
            waiters: Map::new(
                |k: Seq<char>| self.list_waiters@.contains_key(k),
                |k: Seq<char>| self.waiter_queues@[self.list_waiters@[k] as int]@,
            ),
        }
    }
}

impl Store {
    /// Each list's queue of waiters has a slot of its own.
    pub open spec fn wf(&self) -> bool {
        &&& forall|k: Seq<char>| #[trigger]
            self.list_waiters@.contains_key(k) ==> self.list_waiters@[k] < self.waiter_queues@.len()
        &&& forall|k1: Seq<char>, k2: Seq<char>|
            #![trigger self.list_waiters@[k1], self.list_waiters@[k2]]
            self.list_waiters@.contains_key(k1) && self.list_waiters@.contains_key(k2) && k1 != k2
                ==> self.list_waiters@[k1] != self.list_waiters@[k2]
    }
}

/// The store after `kv[key] = val`, recording `expiry` when there is one.
pub open spec fn insert_spec(s: StoreView, key: Seq<char>, val: StoredView, expiry: Option<u128>) -> StoreView {
    match expiry {
        Some(t) => StoreView {
            kv: s.kv.insert(key, val),
            expiring: s.expiring.push((key, t)),
            index: s.index.insert(key, s.expiring.len() as usize),
            waiters: s.waiters,
        },
        None => StoreView { kv: s.kv.insert(key, val), ..s },
    }
}

/// Removing `key` does not fail: when its value has an expiry, its recorded
/// position is within the entries and at least one other entry remains.
pub open spec fn remove_ok(s: StoreView, key: Seq<char>) -> bool {
    s.kv.contains_key(key) && s.kv[key].expiry is Some ==> {
        &&& s.index.contains_key(key)
        &&& s.index[key] < s.expiring.len()
        &&& s.expiring.len() >= 2
    }
}

/// `Vec::swap_remove`: the last element takes the place of the one removed.
pub open spec fn swap_remove<T>(s: Seq<T>, i: int) -> Seq<T> {
    if i == s.len() - 1 {
        s.drop_last()
    } else {
        s.update(i, s.last()).drop_last()
    }
}

/// The store after removing `key`. When its value had an expiry, its entry
/// is swap-removed and its recorded position dropped; the moved entry's key
/// gets the vacated position only when that position is below the new
/// length minus one.
pub open spec fn remove_spec(s: StoreView, key: Seq<char>) -> StoreView {
    if !s.kv.contains_key(key) {
        s
    } else if s.kv[key].expiry is None {
        StoreView { kv: s.kv.remove(key), ..s }
    } else {
        let idx = s.index[key];
        let last = s.expiring.last();
        let expiring = swap_remove(s.expiring, idx as int);
        let index = s.index.remove(key);
        StoreView {
            kv: s.kv.remove(key),
            expiring,
            index: if idx < expiring.len() - 1 {
                index.insert(last.0, idx)
            } else {
                index
            },
            waiters: s.waiters,
        }
    }
}

/// The list a push leaves: `rest` added at the front one by one (so in
/// reverse order) for a left push, or at the back for a right push.
pub open spec fn pushed_list(base: Seq<Seq<char>>, rest: Seq<Seq<char>>, left: bool) -> Seq<
    Seq<char>,
> {
    if left {
        rest.reverse() + base
    } else {
        base + rest
    }
}

pub open spec fn push_wrong_type_msg(key: Seq<char>) -> Seq<char> {
    "Key: "@ + key
        + " already exists in kv store and the value for the key is a String. For existing keys, RPUSH requires the value be a list"@
}

/// A count result with its error as a view.
pub open spec fn count_result(r: Result<usize, RedisError>) -> Result<nat, RedisErrorView> {
    match r {
        Ok(n) => Ok(n as nat),
        Err(e) => Err(e@),
    }
}

/// The list stored at `key`, empty when the key is absent.
pub open spec fn list_at(s: StoreView, key: Seq<char>) -> Seq<Seq<char>> {
    if s.kv.contains_key(key) && s.kv[key].val is List {
        s.kv[key].val->List_0
    } else {
        Seq::empty()
    }
}

/// The expiry of the value at `key`, none when the key is absent.
pub open spec fn expiry_at(s: StoreView, key: Seq<char>) -> Option<u128> {
    if s.kv.contains_key(key) {
        s.kv[key].expiry
    } else {
        None
    }
}

/// How many of `n` pushed elements go to clients blocked on `key`: one each
/// to the longest-waiting clients, as many as there are.
pub open spec fn handed_count(s: StoreView, key: Seq<char>, n: nat) -> nat {
    if s.waiters.contains_key(key) {
        if n <= s.waiters[key].len() {
            n
        } else {
            s.waiters[key].len()
        }
    } else {
        0
    }
}

/// Pushing `xs` onto the list at `key` (a missing key starts as an empty
/// list). The first elements go to the clients blocked on `key`, oldest
/// first, one each; when they take every element the list is left as it was
/// and the count of elements is returned; otherwise the rest are pushed and
/// the list's new length is returned. A string value is refused.
pub open spec fn push_spec(s: StoreView, key: Seq<char>, xs: Seq<Seq<char>>, left: bool) -> (
    Result<nat, RedisErrorView>,
    StoreView,
) {
    if s.kv.contains_key(key) && s.kv[key].val is Str {
        (Err(RedisErrorView::WrongType(push_wrong_type_msg(key))), s)
    } else {
        let base = list_at(s, key);
        let handed = handed_count(s, key, xs.len());
        let waiters = if s.waiters.contains_key(key) {
            s.waiters.insert(key, s.waiters[key].skip(handed as int))
        } else {
            s.waiters
        };
        let all_handed = s.waiters.contains_key(key) && handed == xs.len();
        let list = if all_handed {
            base
        } else {
            pushed_list(base, xs.skip(handed as int), left)
        };
        (
            Ok(if all_handed { xs.len() } else { list.len() }),
            StoreView {
                kv: s.kv.insert(key, StoredView { val: ValueView::List(list), expiry: expiry_at(s, key) }),
                waiters,
                ..s
            },
        )
    }
}

/// Each client blocked on `key` that a push of `xs` serves (the oldest
/// first, one element each) is sent `[key, element]` with the element it
/// takes. A string value is refused before any client is served.
pub open spec fn served_messages(s: StoreView, key: Seq<char>, xs: Seq<Seq<char>>) -> bool {
    !(s.kv.contains_key(key) && s.kv[key].val is Str) ==> forall|i: int|
        0 <= i < handed_count(s, key, xs.len()) ==> channel_message(
            sender_channel(#[trigger] s.waiters[key][i].channel),
        ) == seq![key, xs[i]]
}

/// What a clone of a list holds.
fn clone_list(l: &VecDeque<String>) -> (r: VecDeque<String>)
    ensures
        texts(r@) == texts(l@),
{
    let r = l.clone();
    assert(forall|i: int| 0 <= i < l@.len() ==> r@[i] == l@[i]);
    assert(texts(r@) =~= texts(l@));
    r
}

impl Store {
    pub fn new() -> (r: Self)
        ensures
            r.wf(),
            r@.kv == Map::<Seq<char>, StoredView>::empty(),
            r@.expiring == Seq::<(Seq<char>, u128)>::empty(),
            r@.index == Map::<Seq<char>, usize>::empty(),
            r@.waiters == Map::<Seq<char>, Seq<BlpopData>>::empty(),
    {
        let r = Store {
            kv: StringHashMap::new(),
            keys_with_expiry: Vec::new(),
            index_map: StringHashMap::new(),
            list_waiters: StringHashMap::new(),
            waiter_queues: Vec::new(),
        };
        assert(r@.kv =~= Map::<Seq<char>, StoredView>::empty());
        assert(r@.expiring =~= Seq::<(Seq<char>, u128)>::empty());
        assert(r@.waiters =~= Map::<Seq<char>, Seq<BlpopData>>::empty());
        r
    }

    /// Removes `key`, and its expiry entry when its value has an expiry.
    pub fn remove(&mut self, key: &String)
        requires
            old(self).wf(),
            remove_ok(old(self)@, key@),
        ensures
            final(self).wf(),
            final(self)@ == remove_spec(old(self)@, key@),
    {
        let expiry = match self.kv.get(key.as_str()) {
            None => {
                return;
            },
            Some(v) => v.expiry,
        };
        self.kv.remove(key.as_str());
        assert(self@.kv =~= old(self)@.kv.remove(key@));
        if expiry.is_none() {
            assert(self@.waiters =~= old(self)@.waiters);
            return;
        }
        let idx = *self.index_map.get(key.as_str()).unwrap();
        let last_key = self.keys_with_expiry[self.keys_with_expiry.len() - 1].0.clone();
        let ghost before = self.keys_with_expiry@;
        self.keys_with_expiry.swap_remove(idx);
        assert(self@.expiring =~= swap_remove(old(self)@.expiring, idx as int));
        self.index_map.remove(key.as_str());
        if idx < self.keys_with_expiry.len() - 1 {
            self.index_map.insert(last_key, idx);
        }
        assert(self@.waiters =~= old(self)@.waiters);
    }

    /// Sets `kv[key] = val`; with an expiry, appends `(key, expiry)` to the
    /// entries and records its position.
    pub fn insert(&mut self, key: String, val: StoredVal, expiry: Option<u128>)
        requires
            old(self).wf(),
        ensures
            final(self).wf(),
            final(self)@ == insert_spec(old(self)@, key@, val@, expiry),
    {
        self.kv.insert(key.clone(), val);
        assert(self@.kv =~= old(self)@.kv.insert(key@, val@));
        if expiry.is_some() {
            self.keys_with_expiry.push((key.clone(), expiry.unwrap()));
            assert(self@.expiring =~= old(self)@.expiring.push((key@, expiry.unwrap())));
            self.index_map.insert(key.clone(), self.keys_with_expiry.len() - 1);
        }
        assert(self@.waiters =~= old(self)@.waiters);
    }
}

impl Store {
    /// Pushes `to_append` onto the list at `list_key` (LPUSH / RPUSH), first
    /// handing elements to the clients blocked on it; each such client is sent
    /// `[list_key, element]`.
    pub fn push(&mut self, list_key: String, to_append: Vec<String>, push_type: PushType) -> (r: Result<
        usize,
        RedisError,
    >)
        requires
            old(self).wf(),
        ensures
            final(self).wf(),
            count_result(r) == push_spec(old(self)@, list_key@, texts(to_append@), push_type is Left).0,
            final(self)@ == push_spec(old(self)@, list_key@, texts(to_append@), push_type is Left).1,
            served_messages(old(self)@, list_key@, texts(to_append@)),
    {
        let ghost xs = texts(to_append@);
        let ghost left = push_type is Left;
        let (mut list, expiry) = match self.kv.get(list_key.as_str()) {
            None => (VecDeque::new(), None),
            Some(stored) => match &stored.val {
                RedisValue::StringVal(_) => {
                    let mut m = String::from_str("Key: ");
                    m.append(list_key.as_str());
                    m.append(
                        " already exists in kv store and the value for the key is a String. For existing keys, RPUSH requires the value be a list",
                    );
                    return Err(RedisError::WrongType(m));
                },
                RedisValue::ListVal(l) => (clone_list(l), stored.expiry),
            },
        };
        assert(texts(list@) == list_at(old(self)@, list_key@));
        let n = to_append.len();
        let mut handed: usize = 0;
        let mut all_handed = false;
        match self.list_waiters.get(list_key.as_str()) {
            Some(slot_ref) => {
                let slot = *slot_ref;
                let ghost queue = self.waiter_queues@[slot as int]@;
                while handed < n && self.waiter_queues[slot].len() > 0
                    invariant
                        self.wf(),
                        slot < self.waiter_queues@.len(),
                        self.list_waiters@ == old(self).list_waiters@,
                        self.list_waiters@.contains_key(list_key@),
                        self.list_waiters@[list_key@] == slot,
                        self.waiter_queues@.len() == old(self).waiter_queues@.len(),
                        queue == old(self).waiter_queues@[slot as int]@,
                        handed <= n,
                        handed <= queue.len(),
                        self.waiter_queues@[slot as int]@ == queue.skip(handed as int),
                        forall|j: int| 0 <= j < self.waiter_queues@.len() && j != slot ==>
                            self.waiter_queues@[j] == old(self).waiter_queues@[j],
                        self.kv@ == old(self).kv@,
                        self.keys_with_expiry@ == old(self).keys_with_expiry@,
                        self.index_map@ == old(self).index_map@,
                        n == to_append@.len(),
                        xs == texts(to_append@),
                        forall|j: int| 0 <= j < handed ==> channel_message(
                            sender_channel(#[trigger] queue[j].channel),
                        ) == seq![list_key@, xs[j]],
                    decreases n - handed,
                {
                    let waiter = self.waiter_queues[slot].pop_front();
                    match waiter {
                        Some(data) => {
                            assert(data == queue[handed as int]);
                            let mut sent: Vec<String> = Vec::new();
                            sent.push(list_key.clone());
                            sent.push(to_append[handed].clone());
                            assert(texts(sent@) =~= seq![list_key@, xs[handed as int]]);
                            let _ = oneshot_send(data.channel, sent);
                        },
                        None => {},
                    }
                    assert(queue.skip(handed as int).subrange(1, queue.skip(handed as int).len() as int)
                        =~= queue.skip(handed + 1));
                    handed = handed + 1;
                }
                assert(handed == handed_count(old(self)@, list_key@, xs.len()));
                if handed == n {
                    all_handed = true;
                }
            },
            None => {},
        }
        let ghost waiters_after = self@.waiters;
        assert(waiters_after =~= push_spec(old(self)@, list_key@, xs, left).1.waiters);
        if all_handed {
            self.kv.insert(list_key, StoredVal { val: RedisValue::ListVal(list), expiry });
            assert(self@.kv =~= push_spec(old(self)@, list_key@, xs, left).1.kv);
            assert(self@.waiters =~= waiters_after);
            return Ok(n);
        }
        let ghost base = texts(list@);
        let mut i = handed;
        while i < n
            invariant
                handed <= i <= n,
                n == to_append@.len(),
                xs == texts(to_append@),
                texts(list@) == pushed_list(base, xs.subrange(handed as int, i as int), left),
                left == (push_type is Left),
            decreases n - i,
        {
            let item = to_append[i].clone();
            let ghost before = texts(list@);
            match push_type {
                PushType::Left => {
                    list.push_front(item);
                    assert(texts(list@) =~= seq![item@] + before);
                    assert(xs.subrange(handed as int, i + 1).reverse() =~= seq![item@] + xs.subrange(
                        handed as int,
                        i as int,
                    ).reverse());
                },
                PushType::Right => {
                    list.push_back(item);
                    assert(texts(list@) =~= before.push(item@));
                    assert(xs.subrange(handed as int, i + 1) =~= xs.subrange(handed as int, i as int).push(item@));
                },
            }
            assert(texts(list@) =~= pushed_list(base, xs.subrange(handed as int, i + 1), left));
            i = i + 1;
        }
        assert(xs.subrange(handed as int, n as int) =~= xs.skip(handed as int));
        let len = list.len();
        self.kv.insert(list_key, StoredVal { val: RedisValue::ListVal(list), expiry });
        assert(self@.kv =~= push_spec(old(self)@, list_key@, xs, left).1.kv);
        assert(self@.waiters =~= waiters_after);
        Ok(len)
    }
}

/// Where a list index lands: non-negative indices stand, negative ones count
/// from the end, and those before the start become 0.
pub open spec fn normalize_spec(index: i32, cap: i32) -> int {
    if index >= 0 {
        index as int
    } else if index < -cap {
        0
    } else {
        index + cap
    }
}

fn normalize_lrange_indices(index: i32, cap: i32) -> (r: usize)
    requires
        cap != i32::MIN,
    ensures
        r as int == normalize_spec(index, cap),
{
    if index >= 0 {
        index as usize
    } else if index < -cap {
        0
    } else {
        (index + cap) as usize
    }
}

pub open spec fn lrange_wrong_type_msg(key: Seq<char>) -> Seq<char> {
    "Key: "@ + key
        + " exists in kv store but the value for the key is a String. LRANGE requires the value be a list"@
}

pub open spec fn lpop_wrong_type_msg(key: Seq<char>) -> Seq<char> {
    "Key: "@ + key
        + " has type String which is not compatible with LPOP command which expects the value stored with this key to be a list"@
}

/// LRANGE at `key` does not fail: a list's length, taken as an `i32`, is not
/// `i32::MIN` (negating it would overflow).
pub open spec fn lrange_ok(s: StoreView, key: Seq<char>) -> bool {
    s.kv.contains_key(key) && s.kv[key].val is List ==> (s.kv[key].val->List_0.len() as i32)
        != i32::MIN
}

/// The elements of the list at `key` from `start` to `stop`, both inclusive;
/// negative indices count from the end (-1 is the last element), indices
/// before the start become 0 and a stop past the end is the last element.
/// A missing key is an empty list; a string value is refused.
pub open spec fn lrange_spec(s: StoreView, key: Seq<char>, start: i32, stop: i32) -> Result<
    Seq<Seq<char>>,
    RedisErrorView,
> {
    if !s.kv.contains_key(key) {
        Ok(Seq::empty())
    } else {
        match s.kv[key].val {
            ValueView::Str(_) => Err(RedisErrorView::WrongType(lrange_wrong_type_msg(key))),
            ValueView::List(l) => {
                let cap = l.len() as i32;
                let a = normalize_spec(start, cap);
                let b = normalize_spec(stop, cap);
                if a > b || a >= l.len() {
                    Ok(Seq::empty())
                } else {
                    Ok(l.subrange(a, if b >= l.len() { l.len() as int } else { b + 1 }))
                }
            },
        }
    }
}

/// Popping up to `n` elements from the front of the list at `key`: a missing
/// key gives nothing, a string value is refused.
pub open spec fn lpop_spec(s: StoreView, key: Seq<char>, n: nat) -> (
    Result<Seq<Seq<char>>, RedisErrorView>,
    StoreView,
) {
    if !s.kv.contains_key(key) {
        (Ok(Seq::empty()), s)
    } else {
        match s.kv[key].val {
            ValueView::Str(_) => (Err(RedisErrorView::WrongType(lpop_wrong_type_msg(key))), s),
            ValueView::List(l) => {
                let t = if l.len() < n { l.len() } else { n };
                (
                    Ok(l.take(t as int)),
                    StoreView {
                        kv: s.kv.insert(
                            key,
                            StoredView { val: ValueView::List(l.skip(t as int)), expiry: s.kv[key].expiry },
                        ),
                        ..s
                    },
                )
            },
        }
    }
}

/// A list result with its texts as character sequences.
pub open spec fn list_result(r: Result<Vec<String>, RedisError>) -> Result<Seq<Seq<char>>, RedisErrorView> {
    match r {
        Ok(v) => Ok(texts(v@)),
        Err(e) => Err(e@),
    }
}

impl Store {
    /// Whether LRANGE at `key` stays within `lrange_ok`.
    pub fn lrange_in_range(&self, key: &String) -> (r: bool)
        ensures
            r == lrange_ok(self@, key@),
    {
        match self.kv.get(key.as_str()) {
            Some(stored) => match &stored.val {
                RedisValue::ListVal(l) => (l.len() as i32) != i32::MIN,
                RedisValue::StringVal(_) => true,
            },
            None => true,
        }
    }

    /// Whether removing `key` stays within `remove_ok`.
    pub fn remove_in_range(&self, key: &String) -> (r: bool)
        ensures
            r == remove_ok(self@, key@),
    {
        match self.kv.get(key.as_str()) {
            Some(stored) => {
                if stored.expiry.is_none() {
                    true
                } else {
                    match self.index_map.get(key.as_str()) {
                        Some(idx) => *idx < self.keys_with_expiry.len() && self.keys_with_expiry.len()
                            >= 2,
                        None => false,
                    }
                }
            },
            None => true,
        }
    }

    /// The elements of the list at `list_key` between `start_` and `stop_`
    /// (LRANGE).
    pub fn lrange(&mut self, list_key: String, start_: i32, stop_: i32) -> (r: Result<
        Vec<String>,
        RedisError,
    >)
        requires
            lrange_ok(old(self)@, list_key@),
        ensures
            final(self)@ == old(self)@,
            final(self).wf() == old(self).wf(),
            list_result(r) == lrange_spec(old(self)@, list_key@, start_, stop_),
    {
        let stored = match self.kv.get(list_key.as_str()) {
            None => {
                let r: Vec<String> = Vec::new();
                assert(texts(r@) =~= Seq::<Seq<char>>::empty());
                return Ok(r);
            },
            Some(whole_list) => whole_list,
        };
        let list = match &stored.val {
            RedisValue::ListVal(list) => list,
            RedisValue::StringVal(_) => {
                let mut m = String::from_str("Key: ");
                m.append(list_key.as_str());
                m.append(
                    " exists in kv store but the value for the key is a String. LRANGE requires the value be a list",
                );
                return Err(RedisError::WrongType(m));
            },
        };
        let ghost l = texts(list@);
        let start = normalize_lrange_indices(start_, list.len() as i32);
        let stop = normalize_lrange_indices(stop_, list.len() as i32);
        if start > stop || start >= list.len() {
            let r: Vec<String> = Vec::new();
            assert(texts(r@) =~= Seq::<Seq<char>>::empty());
            return Ok(r);
        }
        let stop_ = if stop >= list.len() {
            list.len() - 1
        } else {
            stop
        };
        let mut r: Vec<String> = Vec::new();
        let mut i = start;
        let list_len = list.len();
        assert(texts(r@) =~= l.subrange(start as int, start as int));
        while i <= stop_
            invariant
                start <= i <= stop_ + 1,
                stop_ < list_len,
                list_len == list@.len(),
                l == texts(list@),
                texts(r@) == l.subrange(start as int, i as int),
            decreases stop_ + 1 - i,
        {
            let item = list[i].clone();
            assert(item@ == l[i as int]);
            let ghost before = r@;
            r.push(item);
            assert(texts(r@) =~= texts(before).push(item@));
            assert(texts(r@) =~= l.subrange(start as int, i + 1));
            i = i + 1;
        }
        Ok(r)
    }

    /// Pops up to `num_to_pop` elements from the front of the list at
    /// `list_key` (LPOP).
    pub fn lpop(&mut self, list_key: String, num_to_pop: usize) -> (r: Result<
        Vec<String>,
        RedisError,
    >)
        requires
            old(self).wf(),
        ensures
            final(self).wf(),
            list_result(r) == lpop_spec(old(self)@, list_key@, num_to_pop as nat).0,
            final(self)@ == lpop_spec(old(self)@, list_key@, num_to_pop as nat).1,
    {
        let (mut deque, expiry) = match self.kv.get(list_key.as_str()) {
            None => {
                let r: Vec<String> = Vec::new();
                assert(texts(r@) =~= Seq::<Seq<char>>::empty());
                return Ok(r);
            },
            Some(stored) => match &stored.val {
                RedisValue::StringVal(_) => {
                    let mut m = String::from_str("Key: ");
                    m.append(list_key.as_str());
                    m.append(
                        " has type String which is not compatible with LPOP command which expects the value stored with this key to be a list",
                    );
                    return Err(RedisError::WrongType(m));
                },
                RedisValue::ListVal(l) => (clone_list(l), stored.expiry),
            },
        };
        let ghost l = texts(deque@);
        let num_take = if deque.len() < num_to_pop {
            deque.len()
        } else {
            num_to_pop
        };
        let mut res: Vec<String> = Vec::new();
        let mut i: usize = 0;
        assert(texts(res@) =~= l.take(0));
        assert(l.skip(0) =~= l);
        while i < num_take
            invariant
                i <= num_take <= l.len(),
                texts(res@) == l.take(i as int),
                texts(deque@) == l.skip(i as int),
            decreases num_take - i,
        {
            let ghost before = deque@;
            assert(deque@.len() == texts(deque@).len());
            let item = deque.pop_front().unwrap();
            assert(deque@ =~= before.subrange(1, before.len() as int));
            assert(item@ == texts(before)[0]);
            assert(texts(deque@) =~= texts(before).subrange(1, before.len() as int));
            assert(texts(deque@) =~= l.skip(i + 1));
            let ghost res_before = res@;
            res.push(item);
            assert(texts(res@) =~= texts(res_before).push(item@));
            assert(texts(res@) =~= l.take(i + 1));
            i = i + 1;
        }
        self.kv.insert(list_key, StoredVal { val: RedisValue::ListVal(deque), expiry });
        assert(self@.kv =~= lpop_spec(old(self)@, list_key@, num_to_pop as nat).1.kv);
        assert(self@.waiters =~= old(self)@.waiters);
        Ok(res)
    }

    /// Adds a client blocked on `list_key` until `deadline`, at the back of
    /// the list's queue of waiters, and returns the receiver of the channel
    /// whose sender is queued for it.
    pub fn register_waiter(&mut self, list_key: String, deadline: u128) -> (r: oneshot::Receiver<
        Vec<String>,
    >)
        requires
            old(self).wf(),
        ensures
            final(self).wf(),
            final(self)@.kv == old(self)@.kv,
            final(self)@.expiring == old(self)@.expiring,
            final(self)@.index == old(self)@.index,
            exists|d: BlpopData|
                d.deadline == deadline && sender_channel(d.channel) == receiver_channel(r)
                    && final(self)@.waiters == old(self)@.waiters.insert(
                    list_key@,
                    (if old(self)@.waiters.contains_key(list_key@) {
                        old(self)@.waiters[list_key@]
                    } else {
                        Seq::empty()
                    }).push(d),
                ),
    {
        let (tx, rx) = oneshot_channel();
        let data = BlpopData { channel: tx, deadline };
        let ghost d = data;
        match self.list_waiters.get(list_key.as_str()) {
            Some(slot_ref) => {
                let slot = *slot_ref;
                self.waiter_queues[slot].push_back(data);
            },
            None => {
                let slot = self.waiter_queues.len();
                let mut q: VecDeque<BlpopData> = VecDeque::new();
                q.push_back(data);
                self.waiter_queues.push(q);
                self.list_waiters.insert(list_key, slot);
            },
        }
        assert(self@.waiters =~= old(self)@.waiters.insert(
            list_key@,
            (if old(self)@.waiters.contains_key(list_key@) {
                old(self)@.waiters[list_key@]
            } else {
                Seq::empty()
            }).push(d),
        ));
        assert(self@.kv =~= old(self)@.kv);
        assert(self@.expiring =~= old(self)@.expiring);
        assert(d.deadline == deadline && sender_channel(d.channel) == receiver_channel(rx));
        rx
    }
}

/// A copy of a value.
fn clone_value(v: &RedisValue) -> (r: RedisValue)
    ensures
        r@ == v@,
{
    match v {
        RedisValue::StringVal(s) => RedisValue::StringVal(s.clone()),
        RedisValue::ListVal(l) => RedisValue::ListVal(clone_list(l)),
    }
}

/// The store behind the server's commands. The server shares one among its
/// connections and serializes the calls.
pub struct KvStore {
    pub db: Store,
}

/// Times stay far enough below `u128::MAX` that adding any EX or PX
/// duration cannot overflow.
pub open spec fn time_fits(now: u128) -> bool {
    now < 0x1_0000_0000_0000_0000_0000_0000u128
}

/// A value has expired once its expiry time is before `now`.
pub open spec fn expired(v: StoredView, now: u128) -> bool {
    v.expiry matches Some(t) && t < now
}

/// GET: the value at `key` unless it has expired; an expired key is removed.
pub open spec fn get_spec(s: StoreView, key: Seq<char>, now: u128) -> (Option<ValueView>, StoreView) {
    if !s.kv.contains_key(key) {
        (None, s)
    } else if expired(s.kv[key], now) {
        (None, remove_spec(s, key))
    } else {
        (Some(s.kv[key].val), s)
    }
}

/// GET does not fail: removing an expired key stays within `remove_ok`.
pub open spec fn get_ok(s: StoreView, key: Seq<char>, now: u128) -> bool {
    s.kv.contains_key(key) && expired(s.kv[key], now) ==> remove_ok(s, key)
}

pub open spec fn value_option(r: Option<RedisValue>) -> Option<ValueView> {
    match r {
        Some(v) => Some(v@),
        None => None,
    }
}

/// A SET option, its argument as characters.
pub enum SetOptionView {
    EX(Seq<char>),
    PX(Seq<char>),
}

impl View for SetOptions {
    type V = SetOptionView;

    open spec fn view(&self) -> SetOptionView {
        match self {
            SetOptions::EX(a) => SetOptionView::EX(a@),
            SetOptions::PX(a) => SetOptionView::PX(a@),
        }
    }
}

/// The expiry time an option gives: `now` plus the argument, in seconds for
/// EX and milliseconds for PX. An argument that is not a `u64` is refused.
pub open spec fn option_expiry(o: SetOptionView, now: u128) -> Result<u128, RedisErrorView> {
    match o {
        SetOptionView::EX(a) => match parse_unsigned(encode_utf8(a), u64::MAX as nat) {
            Some(v) => Ok((now + v * 1000) as u128),
            None => Err(
                RedisErrorView::InvalidArgumentForCommandOption("SET"@, "EX"@, "Integer"@, a),
            ),
        },
        SetOptionView::PX(a) => match parse_unsigned(encode_utf8(a), u64::MAX as nat) {
            Some(v) => Ok((now + v) as u128),
            None => Err(
                RedisErrorView::InvalidArgumentForCommandOption("SET"@, "PX"@, "Integer"@, a),
            ),
        },
    }
}

/// The expiry that a list of options gives, read in order: the first bad
/// argument is refused, otherwise the last option decides (`acc` before any).
pub open spec fn options_expiry(opts: Seq<SetOptionView>, now: u128, acc: Option<u128>) -> Result<
    Option<u128>,
    RedisErrorView,
>
    decreases opts.len(),
{
    if opts.len() == 0 {
        Ok(acc)
    } else {
        match option_expiry(opts[0], now) {
            Err(e) => Err(e),
            Ok(t) => options_expiry(opts.drop_first(), now, Some(t)),
        }
    }
}

pub open spec fn options_view(o: Option<SetOptionList>) -> Option<Seq<SetOptionView>> {
    match o {
        Some(v) => Some(v@.map_values(|x: SetOptions| x@)),
        None => None,
    }
}

/// SET: stores the string with the expiry its options give, or refuses a
/// bad option argument and leaves the store as it was.
pub open spec fn set_spec(
    s: StoreView,
    key: Seq<char>,
    value: Seq<char>,
    options: Option<Seq<SetOptionView>>,
    now: u128,
) -> (Result<(), RedisErrorView>, StoreView) {
    let e = match options {
        None => Ok(None),
        Some(o) => options_expiry(o, now, None),
    };
    match e {
        Err(x) => (Err(x), s),
        Ok(exp) => (
            Ok(()),
            insert_spec(s, key, StoredView { val: ValueView::Str(value), expiry: exp }, exp),
        ),
    }
}

/// The expiry time one SET option gives.
fn one_option_expiry(opt: &SetOptions, now: u128) -> (r: Result<u128, RedisError>)
    requires
        time_fits(now),
    ensures
        match option_expiry(opt@, now) {
            Ok(t) => r == Ok::<u128, RedisError>(t),
            Err(e) => r matches Err(x) && x@ == e,
        },
{
    match opt {
        SetOptions::EX(arg) => {
            let bytes = arg.as_str().as_bytes();
            assert(bytes@ == encode_utf8(arg@));
            match parse_u64(bytes) {
                Some(timeout) => Ok(now + (timeout as u128) * 1000),
                None => Err(
                    RedisError::InvalidArgumentForCommandOption(
                        String::from_str("SET"),
                        String::from_str("EX"),
                        String::from_str("Integer"),
                        arg.clone(),
                    ),
                ),
            }
        },
        SetOptions::PX(arg) => {
            let bytes = arg.as_str().as_bytes();
            assert(bytes@ == encode_utf8(arg@));
            match parse_u64(bytes) {
                Some(timeout) => Ok(now + (timeout as u128)),
                None => Err(
                    RedisError::InvalidArgumentForCommandOption(
                        String::from_str("SET"),
                        String::from_str("PX"),
                        String::from_str("Integer"),
                        arg.clone(),
                    ),
                ),
            }
        },
    }
}

pub open spec fn unit_result(r: Result<(), RedisError>) -> Result<(), RedisErrorView> {
    match r {
        Ok(()) => Ok(()),
        Err(e) => Err(e@),
    }
}

pub open spec fn llen_wrong_type_msg(key: Seq<char>) -> Seq<char> {
    "Key: "@ + key
        + " has type String which is not compatible with LLEN command which expects the value stored with this key to be a list"@
}

/// LLEN: the length of the list at `key` (as GET sees it), none for a missing
/// key; a string value is refused.
pub open spec fn llen_spec(s: StoreView, key: Seq<char>, now: u128) -> (
    Result<Option<nat>, RedisErrorView>,
    StoreView,
) {
    let (v, s2) = get_spec(s, key, now);
    match v {
        None => (Ok(None), s2),
        Some(ValueView::Str(_)) => (Err(RedisErrorView::WrongType(llen_wrong_type_msg(key))), s2),
        Some(ValueView::List(l)) => (Ok(Some(l.len())), s2),
    }
}

pub open spec fn len_result(r: Result<Option<usize>, RedisError>) -> Result<Option<nat>, RedisErrorView> {
    match r {
        Ok(Some(n)) => Ok(Some(n as nat)),
        Ok(None) => Ok(None),
        Err(e) => Err(e@),
    }
}

/// TYPE: "none", "string" or "list", as GET sees the key.
pub open spec fn type_name_spec(s: StoreView, key: Seq<char>, now: u128) -> Seq<char> {
    match get_spec(s, key, now).0 {
        None => "none"@,
        Some(ValueView::Str(_)) => "string"@,
        Some(ValueView::List(_)) => "list"@,
    }
}

/// How BLPOP starts: with the popped `[key, element]` at once, or with the
/// channel on which a later push hands one over.
pub enum BlpopStart {
    Ready(Vec<String>),
    Waiting(oneshot::Receiver<Vec<String>>),
}

impl KvStore {
    pub fn new() -> (r: Self)
        ensures
            r.db.wf(),
            r.db@.kv == Map::<Seq<char>, StoredView>::empty(),
            r.db@.expiring == Seq::<(Seq<char>, u128)>::empty(),
            r.db@.index == Map::<Seq<char>, usize>::empty(),
            r.db@.waiters == Map::<Seq<char>, Seq<BlpopData>>::empty(),
    {
        KvStore { db: Store::new() }
    }

    /// GET at time `now`: the value, unless it expired before `now`, in which
    /// case the key is removed and there is none.
    pub fn get(&mut self, key: String, now: u128) -> (r: Option<RedisValue>)
        requires
            old(self).db.wf(),
            get_ok(old(self).db@, key@, now),
        ensures
            final(self).db.wf(),
            value_option(r) == get_spec(old(self).db@, key@, now).0,
            final(self).db@ == get_spec(old(self).db@, key@, now).1,
    {
        let is_expired = match self.db.kv.get(key.as_str()) {
            None => {
                return None;
            },
            Some(val) => match val.expiry {
                Some(time) => time < now,
                None => false,
            },
        };
        if is_expired {
            self.db.remove(&key);
            None
        } else {
            let v = self.db.kv.get(key.as_str()).unwrap();
            Some(clone_value(&v.val))
        }
    }

    /// Whether GET of `key` at `now` stays within `get_ok`.
    pub fn get_in_range(&self, key: &String, now: u128) -> (r: bool)
        ensures
            r == get_ok(self.db@, key@, now),
    {
        match self.db.kv.get(key.as_str()) {
            Some(val) => match val.expiry {
                Some(time) => !(time < now) || self.db.remove_in_range(key),
                None => true,
            },
            None => true,
        }
    }

    /// SET at time `now`: stores `new_value` at `key`, with the expiry that
    /// the EX (seconds) or PX (milliseconds) options give.
    pub fn set(&mut self, key: String, new_value: String, options: Option<SetOptionList>, now: u128) -> (r:
        Result<(), RedisError>)
        requires
            old(self).db.wf(),
            time_fits(now),
        ensures
            final(self).db.wf(),
            unit_result(r) == set_spec(old(self).db@, key@, new_value@, options_view(options), now).0,
            final(self).db@ == set_spec(old(self).db@, key@, new_value@, options_view(options), now).1,
    {
        let ghost opts_view = options_view(options);
        let mut expiry: Option<u128> = None;
        if let Some(opts) = options {
            let ghost ov = opts@.map_values(|x: SetOptions| x@);
            let mut i: usize = 0;
            assert(ov.skip(0) =~= ov);
            while i < opts.len()
                invariant
                    i <= opts@.len(),
                    ov == opts@.map_values(|x: SetOptions| x@),
                    opts_view == Some(ov),
                    opts_view == options_view(options),
                    time_fits(now),
                    self.db.wf(),
                    self.db@ == old(self).db@,
                    options_expiry(ov, now, None) == options_expiry(ov.skip(i as int), now, expiry),
                decreases opts@.len() - i,
            {
                assert(ov.skip(i as int).drop_first() =~= ov.skip(i + 1));
                assert(ov.skip(i as int)[0] == opts@[i as int]@);
                match one_option_expiry(&opts[i], now) {
                    Ok(t) => {
                        expiry = Some(t);
                    },
                    Err(e) => {
                        assert(ov.skip(i as int).len() > 0);
                        return Err(e);
                    },
                }
                i = i + 1;
            }
        }
        let new_stored_val = StoredVal { val: RedisValue::StringVal(new_value), expiry: expiry };
        self.db.insert(key, new_stored_val, expiry);
        Ok(())
    }

    /// LPUSH / RPUSH.
    pub fn push(&mut self, list_key: String, to_append: Vec<String>, push_type: PushType) -> (r: Result<
        usize,
        RedisError,
    >)
        requires
            old(self).db.wf(),
        ensures
            final(self).db.wf(),
            count_result(r) == push_spec(old(self).db@, list_key@, texts(to_append@), push_type is Left).0,
            final(self).db@ == push_spec(old(self).db@, list_key@, texts(to_append@), push_type is Left).1,
            served_messages(old(self).db@, list_key@, texts(to_append@)),
    {
        self.db.push(list_key, to_append, push_type)
    }

    /// LRANGE.
    pub fn lrange(&mut self, list_key: String, start: i32, stop: i32) -> (r: Result<
        Vec<String>,
        RedisError,
    >)
        requires
            lrange_ok(old(self).db@, list_key@),
        ensures
            final(self).db@ == old(self).db@,
            final(self).db.wf() == old(self).db.wf(),
            list_result(r) == lrange_spec(old(self).db@, list_key@, start, stop),
    {
        self.db.lrange(list_key, start, stop)
    }

    /// LLEN at time `now`.
    pub fn llen(&mut self, list_key: String, now: u128) -> (r: Result<Option<usize>, RedisError>)
        requires
            old(self).db.wf(),
            get_ok(old(self).db@, list_key@, now),
        ensures
            final(self).db.wf(),
            len_result(r) == llen_spec(old(self).db@, list_key@, now).0,
            final(self).db@ == llen_spec(old(self).db@, list_key@, now).1,
    {
        let stored_val = match self.get(list_key.clone(), now) {
            None => {
                return Ok(None);
            },
            Some(val) => val,
        };
        match stored_val {
            RedisValue::StringVal(_) => {
                let mut m = String::from_str("Key: ");
                m.append(list_key.as_str());
                m.append(
                    " has type String which is not compatible with LLEN command which expects the value stored with this key to be a list",
                );
                Err(RedisError::WrongType(m))
            },
            RedisValue::ListVal(lst) => Ok(Some(lst.len())),
        }
    }

    /// LPOP.
    pub fn lpop(&mut self, list_key: String, num_to_pop: usize) -> (r: Result<
        Vec<String>,
        RedisError,
    >)
        requires
            old(self).db.wf(),
        ensures
            final(self).db.wf(),
            list_result(r) == lpop_spec(old(self).db@, list_key@, num_to_pop as nat).0,
            final(self).db@ == lpop_spec(old(self).db@, list_key@, num_to_pop as nat).1,
    {
        self.db.lpop(list_key, num_to_pop)
    }

    /// The part of BLPOP that decides: pops the first element of the list at
    /// `list_key` when there is one (giving `[list_key, element]`), and
    /// otherwise adds a client blocked on it until `deadline` and gives the
    /// channel to wait on. The caller does the waiting.
    pub fn blpop(&mut self, list_key: String, deadline: u128) -> (r: Result<BlpopStart, RedisError>)
        requires
            old(self).db.wf(),
        ensures
            final(self).db.wf(),
            match lpop_spec(old(self).db@, list_key@, 1).0 {
                Err(e) => r matches Err(x) && x@ == e && final(self).db@ == old(self).db@,
                Ok(l) => if l.len() > 0 {
                    r matches Ok(BlpopStart::Ready(v)) && texts(v@) == seq![list_key@, l[0]]
                        && final(self).db@ == lpop_spec(old(self).db@, list_key@, 1).1
                } else {
                    &&& final(self).db@.kv == old(self).db@.kv
                    &&& final(self).db@.expiring == old(self).db@.expiring
                    &&& final(self).db@.index == old(self).db@.index
                    &&& r matches Ok(BlpopStart::Waiting(rx)) && exists|d: BlpopData|
                        d.deadline == deadline && sender_channel(d.channel) == receiver_channel(rx)
                            && final(self).db@.waiters
                            == old(self).db@.waiters.insert(
                            list_key@,
                            (if old(self).db@.waiters.contains_key(list_key@) {
                                old(self).db@.waiters[list_key@]
                            } else {
                                Seq::empty()
                            }).push(d),
                        )
                },
            },
    {
        let popped = match self.db.lpop(list_key.clone(), 1) {
            Ok(v) => v,
            Err(e) => {
                return Err(e);
            },
        };
        proof {
            let o = old(self).db@;
            assert(list_result(Ok::<Vec<String>, RedisError>(popped)) == lpop_spec(o, list_key@, 1).0);
        }
        if popped.len() > 0 {
            let x = popped[0].clone();
            let mut res: Vec<String> = Vec::new();
            res.push(list_key);
            res.push(x);
            assert(texts(res@) =~= seq![list_key@, texts(popped@)[0]]);
            Ok(BlpopStart::Ready(res))
        } else {
            let ghost mid = self.db@;
            assert(mid == old(self).db@) by {
                let o = old(self).db@;
                if o.kv.contains_key(list_key@) {
                    let l = o.kv[list_key@].val->List_0;
                    assert(o.kv[list_key@].val is List);
                    assert(texts(popped@).len() == 0);
                    assert(l.take(if l.len() < 1 { l.len() as int } else { 1 }).len() == 0);
                    assert(l.len() == 0);
                    assert(l.skip(0) =~= l);
                    assert(o.kv[list_key@] == StoredView {
                        val: ValueView::List(l.skip(0)),
                        expiry: o.kv[list_key@].expiry,
                    });
                    assert(o.kv.insert(list_key@, o.kv[list_key@]) =~= o.kv);
                }
                assert(mid.kv =~= o.kv);
            }
            let rx = self.db.register_waiter(list_key, deadline);
            Ok(BlpopStart::Waiting(rx))
        }
    }

    /// TYPE at time `now`: "none", "string" or "list".
    pub fn get_type(&mut self, key_name: String, now: u128) -> (r: String)
        requires
            old(self).db.wf(),
            get_ok(old(self).db@, key_name@, now),
        ensures
            final(self).db.wf(),
            r@ == type_name_spec(old(self).db@, key_name@, now),
            final(self).db@ == get_spec(old(self).db@, key_name@, now).1,
    {
        let val = self.get(key_name, now);
        match val {
            None => String::from_str("none"),
            Some(RedisValue::StringVal(_)) => String::from_str("string"),
            Some(RedisValue::ListVal(_)) => String::from_str("list"),
        }
    }
}


/// What a blocked BLPOP's wait came to: the `[key, element]` a push handed
/// over, the sending side gone without a value, or the wait ran out.
pub enum BlpopWait {
    Received(Vec<String>),
    SenderGone,
    TimedOut,
}

/// The answer of BLPOP after its wait: what was handed over, nothing when
/// the wait ran out, and an I/O error when the sending side was dropped.
pub fn blpop_result(waited: BlpopWait) -> (r: Result<Vec<String>, RedisError>)
    ensures
        match waited {
            BlpopWait::Received(v) => r matches Ok(x) && x@ == v@,
            BlpopWait::TimedOut => r matches Ok(x) && x@.len() == 0,
            BlpopWait::SenderGone => r matches Err(e) && e@ is IoError,
        },
{
    match waited {
        BlpopWait::Received(v) => Ok(v),
        BlpopWait::TimedOut => Ok(Vec::new()),
        BlpopWait::SenderGone => Err(RedisError::IoError(io_error_other("Receiver dropped for BLPOP operation"))),
    }
}

} // verus!
