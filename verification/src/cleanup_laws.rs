//! What the active expiry cleanup does to the keys it finds expired.

use vstd::prelude::*;
use crate::data_store::{StoreView, remove_spec};
use crate::key_recycler::{
    CleanupEnd, CleanupStep, cleanup_run, expired_keys, pass_result, remove_all,
};

verus! {

proof fn lemma_remove_shrinks(s: StoreView, key: Seq<char>)
    ensures
        !remove_spec(s, key).kv.contains_key(key),
        forall|k: Seq<char>| #[trigger] remove_spec(s, key).kv.contains_key(k) ==> s.kv.contains_key(k),
{
}

proof fn lemma_remove_all_removes(s: StoreView, keys: Seq<Seq<char>>)
    ensures
        forall|i: int| 0 <= i < keys.len() ==> !remove_all(s, keys).kv.contains_key(#[trigger] keys[i]),
        forall|k: Seq<char>| #[trigger] remove_all(s, keys).kv.contains_key(k) ==> s.kv.contains_key(k),
    decreases keys.len(),
{
    if keys.len() > 0 {
        let inner = remove_all(s, keys.drop_last());
        lemma_remove_all_removes(s, keys.drop_last());
        lemma_remove_shrinks(inner, keys.last());
        assert forall|i: int| 0 <= i < keys.len() implies !remove_all(s, keys).kv.contains_key(
            #[trigger] keys[i],
        ) by {
            if i < keys.len() - 1 {
                assert(keys[i] == keys.drop_last()[i]);
            }
        }
    }
}

/// A pass that does not fault removes every key it found expired in its
/// sample, whether the cleanup goes on or ends, and stores no key that was
/// not there before.
pub proof fn law_pass_removes_expired_keys(
    s: StoreView,
    s2: StoreView,
    l: Seq<Seq<char>>,
    l2: Seq<Seq<char>>,
    k: nat,
    now: u128,
    r: CleanupStep,
    sample: Seq<(Seq<char>, u128)>,
)
    requires
        pass_result(s, s2, l, l2, k, now, r, sample),
        !(r is Fault),
    ensures
        forall|i: int| 0 <= i < expired_keys(sample, now).len() ==> !s2.kv.contains_key(
            #[trigger] expired_keys(sample, now)[i],
        ),
        forall|key: Seq<char>| #[trigger] s2.kv.contains_key(key) ==> s.kv.contains_key(key),
{
    lemma_remove_all_removes(s, expired_keys(sample, now));
}

proof fn lemma_run_shrinks(s: StoreView, k: nat, now: u128, samples: Seq<Seq<(Seq<char>, u128)>>)
    ensures
        forall|key: Seq<char>| #[trigger] cleanup_run(s, k, now, samples).store.kv.contains_key(key)
            ==> s.kv.contains_key(key),
    decreases samples.len(),
{
    if samples.len() > 0 {
        let keys = expired_keys(samples[0], now);
        lemma_remove_all_removes(s, keys);
        if k < 0x7fff_ffff {
            lemma_run_shrinks(remove_all(s, keys), k + 1, now, samples.drop_first());
        }
    }
}

/// A cleanup run that does not fault leaves none of the keys that its first
/// pass found expired, however many passes follow.
pub proof fn law_cleanup_removes_expired_keys(
    s: StoreView,
    k: nat,
    now: u128,
    samples: Seq<Seq<(Seq<char>, u128)>>,
)
    requires
        samples.len() > 0,
        cleanup_run(s, k, now, samples).fits,
        cleanup_run(s, k, now, samples).end != Some(CleanupEnd::Fault),
    ensures
        forall|i: int| 0 <= i < expired_keys(samples[0], now).len() ==> !cleanup_run(s, k, now, samples).store.kv.contains_key(
            #[trigger] expired_keys(samples[0], now)[i],
        ),
{
    let keys = expired_keys(samples[0], now);
    lemma_remove_all_removes(s, keys);
    let s1 = remove_all(s, keys);
    lemma_run_shrinks(s1, k + 1, now, samples.drop_first());
}

} // verus!
