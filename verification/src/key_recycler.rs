//! The active expiry cleanup: repeatedly samples the keys that have an
//! expiry and removes those that have expired, until few of a sample have.

use vstd::prelude::*;
use rand::seq::IndexedRandom;
use crate::decimal::{append_decimal, decimal_chars};
use crate::parser::texts;
use crate::data_store::{Store, StoreView, remove_ok, remove_spec};

verus! {

/// An expiry entry as characters and time.
pub open spec fn entry_view(e: (String, u128)) -> (Seq<char>, u128) {
    (e.0@, e.1)
}

pub open spec fn entries_view(v: Seq<(String, u128)>) -> Seq<(Seq<char>, u128)> {
    v.map_values(|e: (String, u128)| entry_view(e))
}

/// Calls rand's `IndexedRandom::sample` with the thread's generator
/// (`rand::rng()`; the generator panics when the system's random source fails
/// while seeding or reseeding it, which no precondition can exclude):
/// `min(amount, len)` entries of `keys` chosen at random without repetition,
/// in random order. Which entries come out is left open.
#[verifier::external_body]
fn random_sample(keys: &Vec<(String, u128)>, amount: usize) -> (r: Vec<(String, u128)>)
    ensures
        r@.len() == (if amount <= keys@.len() { amount as nat } else { keys@.len() }),
        entries_view(r@).to_multiset().subset_of(entries_view(keys@).to_multiset()),
{
    let mut rng = rand::rng();
    keys.sample(&mut rng, amount).cloned().collect()
}

/// The keys of the entries whose time is before `now`, in order.
pub open spec fn expired_keys(sample: Seq<(Seq<char>, u128)>, now: u128) -> Seq<Seq<char>>
    decreases sample.len(),
{
    if sample.len() == 0 {
        Seq::empty()
    } else {
        let rest = expired_keys(sample.drop_last(), now);
        if sample.last().1 < now {
            rest.push(sample.last().0)
        } else {
            rest
        }
    }
}

/// `", key "` for each key, one after another.
pub open spec fn listed_keys(keys: Seq<Seq<char>>) -> Seq<char>
    decreases keys.len(),
{
    if keys.len() == 0 {
        Seq::empty()
    } else {
        listed_keys(keys.drop_last()) + ", "@ + keys.last() + " "@
    }
}

/// The keys as one line of text: `", key "` for each key.
pub fn list_keys(keys: &Vec<String>) -> (r: String)
    ensures
        r@ == listed_keys(texts(keys@)),
{
    let mut res = String::new();
    let mut i: usize = 0;
    assert(texts(keys@).take(0) =~= Seq::<Seq<char>>::empty());
    while i < keys.len()
        invariant
            i <= keys@.len(),
            res@ == listed_keys(texts(keys@).take(i as int)),
        decreases keys@.len() - i,
    {
        let ghost before = res@;
        res.append(", ");
        res.append(keys[i].as_str());
        res.append(" ");
        assert(texts(keys@).take(i + 1).drop_last() =~= texts(keys@).take(i as int));
        assert(res@ =~= before + ", "@ + keys@[i as int]@ + " "@);
        i = i + 1;
    }
    assert(texts(keys@).take(keys@.len() as int) =~= texts(keys@));
    res
}

pub open spec fn sample_size_of(len: nat) -> nat {
    if len < 20 {
        len
    } else {
        20
    }
}

pub open spec fn sample_log_line(n: nat) -> Seq<char> {
    "[Active Cleanup Pass] Obtaining random sample of "@ + decimal_chars(n) + " keys"@
}

pub open spec fn found_log_line(n: nat) -> Seq<char> {
    "[Active Cleanup Pass] Found "@ + decimal_chars(n) + " expired keys in the random sample"@
}

/// Samples up to 20 of the expiry entries and gives the keys of those whose
/// time is before `now`, with the sample's size; two lines go to the log.
pub fn sample_keys_loop(keys_expiry: &Vec<(String, u128)>, log_lines: &mut Vec<String>, now: u128) -> (r: (
    Vec<String>,
    usize,
))
    ensures
        r.1 == sample_size_of(keys_expiry@.len()),
        exists|sample: Seq<(Seq<char>, u128)>|
            #![trigger expired_keys(sample, now)]
            {
                &&& sample.len() == r.1
                &&& sample.to_multiset().subset_of(entries_view(keys_expiry@).to_multiset())
                &&& texts(r.0@) == expired_keys(sample, now)
            },
        texts(final(log_lines)@) == texts(old(log_lines)@) + seq![
            sample_log_line(r.1 as nat),
            found_log_line(r.0@.len()),
        ],
{
    let sample_size: usize = if keys_expiry.len() < 20 {
        keys_expiry.len()
    } else {
        20
    };
    let sample = random_sample(keys_expiry, sample_size);
    let mut line = String::from_str("[Active Cleanup Pass] Obtaining random sample of ");
    append_decimal(&mut line, sample_size as u64);
    line.append(" keys");
    let ghost l0 = log_lines@;
    log_lines.push(line);
    let ghost sv = entries_view(sample@);
    let mut expired: Vec<String> = Vec::new();
    let mut i: usize = 0;
    assert(sv.take(0) =~= Seq::<(Seq<char>, u128)>::empty());
    assert(texts(expired@) =~= Seq::<Seq<char>>::empty());
    while i < sample.len()
        invariant
            i <= sample@.len(),
            sv == entries_view(sample@),
            texts(expired@) == expired_keys(sv.take(i as int), now),
        decreases sample@.len() - i,
    {
        assert(sv.take(i + 1).drop_last() =~= sv.take(i as int));
        let ghost before = expired@;
        if sample[i].1 < now {
            let k = sample[i].0.clone();
            expired.push(k);
            assert(texts(expired@) =~= texts(before).push(k@));
        }
        i = i + 1;
    }
    assert(sv.take(sample@.len() as int) =~= sv);
    let mut found = String::from_str("[Active Cleanup Pass] Found ");
    append_decimal(&mut found, expired.len() as u64);
    found.append(" expired keys in the random sample");
    log_lines.push(found);
    assert(texts(log_lines@) =~= texts(l0) + seq![
        sample_log_line(sample_size as nat),
        found_log_line(expired@.len()),
    ]);
    (expired, sample_size)
}

/// The store after removing each of `keys` in turn.
pub open spec fn remove_all(s: StoreView, keys: Seq<Seq<char>>) -> StoreView
    decreases keys.len(),
{
    if keys.len() == 0 {
        s
    } else {
        remove_spec(remove_all(s, keys.drop_last()), keys.last())
    }
}

/// Each of `keys` in turn can be removed.
pub open spec fn remove_all_ok(s: StoreView, keys: Seq<Seq<char>>) -> bool
    decreases keys.len(),
{
    if keys.len() == 0 {
        true
    } else {
        remove_all_ok(s, keys.drop_last()) && remove_ok(remove_all(s, keys.drop_last()), keys.last())
    }
}

proof fn lemma_expired_keys_len(sample: Seq<(Seq<char>, u128)>, now: u128)
    ensures
        expired_keys(sample, now).len() <= sample.len(),
    decreases sample.len(),
{
    if sample.len() > 0 {
        lemma_expired_keys_len(sample.drop_last(), now);
    }
}

proof fn lemma_remove_all_ok_prefix(s: StoreView, keys: Seq<Seq<char>>, j: int)
    requires
        remove_all_ok(s, keys),
        0 <= j <= keys.len(),
    ensures
        remove_all_ok(s, keys.take(j)),
    decreases keys.len(),
{
    if j < keys.len() {
        assert(keys.drop_last().take(j) =~= keys.take(j));
        lemma_remove_all_ok_prefix(s, keys.drop_last(), j);
    } else {
        assert(keys.take(j) =~= keys);
    }
}

pub open spec fn no_expiry_log_line() -> Seq<char> {
    "[Active Cleanup Pass] No keys have an expiration: returning"@
}

/// Whether the cleanup has nothing to sample (no key has an expiry); it then
/// logs so, and the cleanup ends before any pass.
pub fn no_keys_expire(store: &Store, log_lines: &mut Vec<String>) -> (r: bool)
    ensures
        r == (store@.expiring.len() == 0),
        r ==> texts(final(log_lines)@) == texts(old(log_lines)@).push(no_expiry_log_line()),
        !r ==> final(log_lines)@ == old(log_lines)@,
{
    if store.keys_with_expiry.len() == 0 {
        let ghost before = log_lines@;
        let line = String::from_str("[Active Cleanup Pass] No keys have an expiration: returning");
        log_lines.push(line);
        assert(texts(log_lines@) =~= texts(before).push(line@));
        true
    } else {
        false
    }
}

/// How a pass of the cleanup ends.
pub enum CleanupStep {
    /// At least a quarter of the sample had expired: another pass follows.
    Continue,
    /// Fewer than a quarter of the sample had expired: the cleanup ends.
    Done,
    /// A sampled key could not be removed (its expiry entry is not where it
    /// is recorded, or it is the last entry): the cleanup cannot go on.
    Fault,
}

pub open spec fn removing_log_line(keys: Seq<Seq<char>>) -> Seq<char> {
    "[Active Cleanup Pass] Removing the following expired keys: "@ + listed_keys(keys)
}

pub open spec fn ending_log_line(k: nat) -> Seq<char> {
    "[Active Cleanup Pass] Number of expired keys less than 25% of sample, ending loop after "@
        + decimal_chars(k) + " pass(es)"@
}

/// Pass `k` at time `now` on the store `s` (leaving `s2`) with the log `l`
/// (becoming `l2`) ends in `r`, having drawn `sample`: the sample has the
/// size the entries call for and comes from them; its expired keys are
/// removed in turn (a key that cannot be removed is a fault); the cleanup
/// ends when fewer than a quarter of the sample had expired.
pub open spec fn pass_result(
    s: StoreView,
    s2: StoreView,
    l: Seq<Seq<char>>,
    l2: Seq<Seq<char>>,
    k: nat,
    now: u128,
    r: CleanupStep,
    sample: Seq<(Seq<char>, u128)>,
) -> bool {
    let keys = expired_keys(sample, now);
    let n = sample_size_of(s.expiring.len());
    let lines = seq![sample_log_line(n), found_log_line(keys.len()), removing_log_line(keys)];
    &&& sample.len() == n
    &&& sample.to_multiset().subset_of(s.expiring.to_multiset())
    &&& match r {
        CleanupStep::Fault => !remove_all_ok(s, keys),
        CleanupStep::Done => {
            &&& remove_all_ok(s, keys)
            &&& s2 == remove_all(s, keys)
            &&& 4 * keys.len() < n
            &&& l2 == l + lines.push(ending_log_line(k))
        },
        CleanupStep::Continue => {
            &&& remove_all_ok(s, keys)
            &&& s2 == remove_all(s, keys)
            &&& 4 * keys.len() >= n
            &&& l2 == l + lines
        },
    }
}

/// Pass `k` of the active cleanup at time `now`: samples up to 20 expiry
/// entries, removes the keys of those that expired before `now`, and ends
/// the cleanup when fewer than a quarter of the sample had expired.
#[verifier::loop_isolation(false)]
pub fn cleanup_pass(store: &mut Store, k: u64, now: u128, log_lines: &mut Vec<String>) -> (r: CleanupStep)
    requires
        old(store).wf(),
    ensures
        final(store).wf(),
        exists|sample: Seq<(Seq<char>, u128)>| #[trigger]
            pass_result(
                old(store)@,
                final(store)@,
                texts(old(log_lines)@),
                texts(final(log_lines)@),
                k as nat,
                now,
                r,
                sample,
            ),
{
    assert(entries_view(store.keys_with_expiry@) == store@.expiring);
    let ghost l0 = log_lines@;
    let (expired_keys_sample, sample_size) = sample_keys_loop(&store.keys_with_expiry, log_lines, now);
    let ghost sample = choose|sample: Seq<(Seq<char>, u128)>|
        {
            &&& sample.len() == sample_size
            &&& sample.to_multiset().subset_of(entries_view(store.keys_with_expiry@).to_multiset())
            &&& texts(expired_keys_sample@) == #[trigger] expired_keys(sample, now)
        };
    proof {
        lemma_expired_keys_len(sample, now);
    }
    let ghost l1 = log_lines@;
    let mut line = String::from_str("[Active Cleanup Pass] Removing the following expired keys: ");
    line.append(list_keys(&expired_keys_sample).as_str());
    log_lines.push(line);
    assert(texts(log_lines@) =~= texts(l1).push(line@));
    assert(texts(log_lines@) =~= texts(l0) + seq![
        sample_log_line(sample_size as nat),
        found_log_line(expired_keys_sample@.len()),
        removing_log_line(texts(expired_keys_sample@)),
    ]);
    let ghost s0 = store@;
    let ghost keys = texts(expired_keys_sample@);
    let mut i: usize = 0;
    assert(keys.take(0) =~= Seq::<Seq<char>>::empty());
    while i < expired_keys_sample.len()
        invariant
            i <= expired_keys_sample@.len(),
            keys == texts(expired_keys_sample@),
            store.wf(),
            remove_all_ok(s0, keys.take(i as int)),
            store@ == remove_all(s0, keys.take(i as int)),
        decreases expired_keys_sample@.len() - i,
    {
        assert(keys.take(i + 1).drop_last() =~= keys.take(i as int));
        if !store.remove_in_range(&expired_keys_sample[i]) {
            proof {
                if remove_all_ok(s0, keys) {
                    lemma_remove_all_ok_prefix(s0, keys, i + 1);
                }
                assert(pass_result(s0, store@, texts(l0), texts(log_lines@), k as nat, now, CleanupStep::Fault, sample));
            }
            return CleanupStep::Fault;
        }
        store.remove(&expired_keys_sample[i]);
        i = i + 1;
    }
    assert(keys.take(keys.len() as int) =~= keys);
    if 4 * (expired_keys_sample.len() as u64) < (sample_size as u64) {
        let ghost l2 = log_lines@;
        let mut end = String::from_str(
            "[Active Cleanup Pass] Number of expired keys less than 25% of sample, ending loop after ",
        );
        append_decimal(&mut end, k);
        end.append(" pass(es)");
        log_lines.push(end);
        assert(texts(log_lines@) =~= texts(l2).push(ending_log_line(k as nat)));
        assert(pass_result(s0, store@, texts(l0), texts(log_lines@), k as nat, now, CleanupStep::Done, sample));
        CleanupStep::Done
    } else {
        assert(pass_result(s0, store@, texts(l0), texts(log_lines@), k as nat, now, CleanupStep::Continue, sample));
        CleanupStep::Continue
    }
}

/// How a whole cleanup run ends.
pub enum CleanupEnd {
    /// A pass found fewer than a quarter of its sample expired (or no key has
    /// an expiry).
    Done,
    /// A sampled key could not be removed.
    Fault,
    /// The pass counter, an `i32`, would go past `i32::MAX`.
    PassLimit,
}

/// Where a run of passes stands: whether each sample fits the store it was
/// drawn from, how the run ended (none while it goes on), the store, and the
/// lines it logged.
pub struct CleanupRun {
    pub fits: bool,
    pub end: Option<CleanupEnd>,
    pub store: StoreView,
    pub lines: Seq<Seq<char>>,
}

/// Running passes `k, k + 1, ...` on `s` at time `now`, pass `k + i` drawing
/// `samples[i]`, until one ends the cleanup or the samples run out.
pub open spec fn cleanup_run(s: StoreView, k: nat, now: u128, samples: Seq<Seq<(Seq<char>, u128)>>) -> CleanupRun
    decreases samples.len(),
{
    if samples.len() == 0 {
        CleanupRun { fits: true, end: None, store: s, lines: Seq::empty() }
    } else {
        let sample = samples[0];
        let keys = expired_keys(sample, now);
        let n = sample_size_of(s.expiring.len());
        let lines = seq![sample_log_line(n), found_log_line(keys.len()), removing_log_line(keys)];
        if !(sample.len() == n && sample.to_multiset().subset_of(s.expiring.to_multiset())) {
            CleanupRun { fits: false, end: None, store: s, lines: Seq::empty() }
        } else if !remove_all_ok(s, keys) {
            CleanupRun { fits: true, end: Some(CleanupEnd::Fault), store: s, lines }
        } else if 4 * keys.len() < n {
            CleanupRun {
                fits: true,
                end: Some(CleanupEnd::Done),
                store: remove_all(s, keys),
                lines: lines.push(ending_log_line(k)),
            }
        } else if k >= 0x7fff_ffff {
            CleanupRun { fits: true, end: Some(CleanupEnd::PassLimit), store: remove_all(s, keys), lines }
        } else {
            let rest = cleanup_run(remove_all(s, keys), k + 1, now, samples.drop_first());
            CleanupRun { lines: lines + rest.lines, ..rest }
        }
    }
}

proof fn lemma_cleanup_run_push(
    s: StoreView,
    k: nat,
    now: u128,
    a: Seq<Seq<(Seq<char>, u128)>>,
    x: Seq<(Seq<char>, u128)>,
)
    requires
        cleanup_run(s, k, now, a).fits,
        cleanup_run(s, k, now, a).end is None,
    ensures
        ({
            let p = cleanup_run(s, k, now, a);
            let q = cleanup_run(p.store, k + a.len(), now, seq![x]);
            cleanup_run(s, k, now, a.push(x)) == CleanupRun { lines: p.lines + q.lines, ..q }
        }),
    decreases a.len(),
{
    if a.len() == 0 {
        assert(a.push(x) =~= seq![x]);
        let q = cleanup_run(s, k, now, seq![x]);
        assert(Seq::<Seq<char>>::empty() + q.lines =~= q.lines);
    } else {
        let sample = a[0];
        let keys = expired_keys(sample, now);
        assert(a.push(x)[0] == sample);
        assert(a.push(x).drop_first() =~= a.drop_first().push(x));
        let s1 = remove_all(s, keys);
        lemma_cleanup_run_push(s1, k + 1, now, a.drop_first(), x);
        let p1 = cleanup_run(s1, k + 1, now, a.drop_first());
        let q = cleanup_run(p1.store, k + 1 + a.drop_first().len(), now, seq![x]);
        let n = sample_size_of(s.expiring.len());
        let lines = seq![sample_log_line(n), found_log_line(keys.len()), removing_log_line(keys)];
        assert(lines + (p1.lines + q.lines) =~= (lines + p1.lines) + q.lines);
    }
}

/// A whole run of the active cleanup at time `now`: when no key has an
/// expiry it logs so and ends; otherwise it runs passes 1, 2, ... until one
/// finds fewer than a quarter of its sample expired, a sampled key cannot be
/// removed, or the pass counter (an `i32`) would overflow.
pub fn active_cleanup(store: &mut Store, now: u128, log_lines: &mut Vec<String>) -> (r: CleanupEnd)
    requires
        old(store).wf(),
    ensures
        final(store).wf(),
        old(store)@.expiring.len() == 0 ==> {
            &&& r is Done
            &&& final(store)@ == old(store)@
            &&& texts(final(log_lines)@) == texts(old(log_lines)@).push(no_expiry_log_line())
        },
        old(store)@.expiring.len() > 0 ==> exists|samples: Seq<Seq<(Seq<char>, u128)>>| {
            let run = #[trigger] cleanup_run(old(store)@, 1, now, samples);
            &&& run.fits
            &&& run.end == Some(r)
            &&& !(r is Fault) ==> {
                &&& final(store)@ == run.store
                &&& texts(final(log_lines)@) == texts(old(log_lines)@) + run.lines
            }
        },
{
    if no_keys_expire(store, log_lines) {
        return CleanupEnd::Done;
    }
    let ghost s0 = store@;
    let ghost l0 = texts(log_lines@);
    let ghost mut done: Seq<Seq<(Seq<char>, u128)>> = Seq::empty();
    let mut k: u64 = 1;
    assert(texts(log_lines@) =~= l0 + Seq::<Seq<char>>::empty());
    loop
        invariant
            store.wf(),
            1 <= k <= 0x7fff_ffff,
            k == 1 + done.len(),
            s0 == old(store)@,
            l0 == texts(old(log_lines)@),
            s0.expiring.len() > 0,
            cleanup_run(s0, 1, now, done).fits,
            cleanup_run(s0, 1, now, done).end is None,
            cleanup_run(s0, 1, now, done).store == store@,
            texts(log_lines@) == l0 + cleanup_run(s0, 1, now, done).lines,
        decreases 0x7fff_ffff - k,
    {
        let ghost sb = store@;
        let ghost lb = texts(log_lines@);
        let step = cleanup_pass(store, k, now, log_lines);
        let ghost x = choose|sample: Seq<(Seq<char>, u128)>| #[trigger]
            pass_result(sb, store@, lb, texts(log_lines@), k as nat, now, step, sample);
        proof {
            lemma_cleanup_run_push(s0, 1, now, done, x);
            let p = cleanup_run(s0, 1, now, done);
            let q = cleanup_run(sb, k as nat, now, seq![x]);
            assert(pass_result(sb, store@, lb, texts(log_lines@), k as nat, now, step, x));
            assert(seq![x].drop_first() =~= Seq::<Seq<(Seq<char>, u128)>>::empty());
            assert(seq![x][0] == x);
            let keys = expired_keys(x, now);
            let n = sample_size_of(sb.expiring.len());
            let lines = seq![sample_log_line(n), found_log_line(keys.len()), removing_log_line(keys)];
            let s1 = remove_all(sb, keys);
            let rest = cleanup_run(s1, (k + 1) as nat, now, Seq::empty());
            assert(rest == CleanupRun { fits: true, end: None, store: s1, lines: Seq::empty() });
            assert(lines + Seq::<Seq<char>>::empty() =~= lines);
            assert(q.fits);
            assert(step is Continue && k >= 0x7fff_ffff ==> q == CleanupRun {
                fits: true,
                end: Some(CleanupEnd::PassLimit),
                store: s1,
                lines,
            });
            assert(step is Continue && k < 0x7fff_ffff ==> q == CleanupRun {
                fits: true,
                end: None,
                store: s1,
                lines,
            });
            done = done.push(x);
            let run = cleanup_run(s0, 1, now, done);
            assert(run == CleanupRun { lines: p.lines + q.lines, ..q });
            if !(step is Fault) {
                assert(texts(log_lines@) =~= l0 + run.lines);
            }
        }
        match step {
            CleanupStep::Done => {
                return CleanupEnd::Done;
            },
            CleanupStep::Fault => {
                return CleanupEnd::Fault;
            },
            CleanupStep::Continue => {
                if k == 0x7fff_ffff {
                    return CleanupEnd::PassLimit;
                }
                k = k + 1;
            },
        }
    }
}

} // verus!
