//! Recency orders: sequences of `(key, value)` pairs, least recently used
//! first, most recently used last.

use vstd::prelude::*;

verus! {

/// Some pair of `s` carries the key `k`.
pub open spec fn has_key(s: Seq<(u64, u64)>, k: u64) -> bool {
    exists|i: int| 0 <= i < s.len() && (#[trigger] s[i]).0 == k
}

/// A position at which `s` carries the key `k`; the only one when the keys
/// of `s` are distinct. Arbitrary when `k` is absent.
pub open spec fn index_of_key(s: Seq<(u64, u64)>, k: u64) -> int {
    choose|i: int| 0 <= i < s.len() && (#[trigger] s[i]).0 == k
}

/// The value stored under `k`. Arbitrary when `k` is absent.
pub open spec fn value_of(s: Seq<(u64, u64)>, k: u64) -> u64 {
    s[index_of_key(s, k)].1
}

/// The value stored under `k`, if `k` is present.
pub open spec fn lookup(s: Seq<(u64, u64)>, k: u64) -> Option<u64> {
    if has_key(s, k) {
        Some(value_of(s, k))
    } else {
        None
    }
}

/// No key occurs at two positions.
pub open spec fn distinct_keys(s: Seq<(u64, u64)>) -> bool {
    forall|i: int, j: int| 0 <= i < j < s.len() ==> (#[trigger] s[i]).0 != (#[trigger] s[j]).0
}

/// `s` with the pair under `k` taken out; `s` itself when `k` is absent.
pub open spec fn without(s: Seq<(u64, u64)>, k: u64) -> Seq<(u64, u64)> {
    if has_key(s, k) {
        s.remove(index_of_key(s, k))
    } else {
        s
    }
}

/// `s` with the value under `k` replaced by `v`, the pair staying in its
/// place; `s` itself when `k` is absent.
pub open spec fn with_value(s: Seq<(u64, u64)>, k: u64, v: u64) -> Seq<(u64, u64)> {
    if has_key(s, k) {
        s.update(index_of_key(s, k), (k, v))
    } else {
        s
    }
}

/// `s` after `k` was given the value `v`: the pair is the most recent one,
/// and an earlier pair under `k` is gone.
pub open spec fn put(s: Seq<(u64, u64)>, k: u64, v: u64) -> Seq<(u64, u64)> {
    without(s, k).push((k, v))
}

/// `s` after `k` was looked up: its pair, if there is one, is the most
/// recent one.
pub open spec fn touch(s: Seq<(u64, u64)>, k: u64) -> Seq<(u64, u64)> {
    if has_key(s, k) {
        put(s, k, value_of(s, k))
    } else {
        s
    }
}

/// The `cap` most recent pairs of `s`, all of `s` when it has no more.
pub open spec fn trim(s: Seq<(u64, u64)>, cap: nat) -> Seq<(u64, u64)> {
    if s.len() > cap {
        s.skip(s.len() - cap)
    } else {
        s
    }
}

/// `put` under a bound: the least recent pairs leave until `cap` are left.
pub open spec fn put_bounded(s: Seq<(u64, u64)>, cap: nat, k: u64, v: u64) -> Seq<(u64, u64)> {
    trim(put(s, k, v), cap)
}

/// `put_bounded` for each pair of `items` in turn, first to last.
pub open spec fn put_all(s: Seq<(u64, u64)>, cap: nat, items: Seq<(u64, u64)>) -> Seq<(u64, u64)>
    decreases items.len(),
{
    if items.len() == 0 {
        s
    } else {
        put_bounded(put_all(s, cap, items.drop_last()), cap, items.last().0, items.last().1)
    }
}

/// Where the keys are distinct, the key at a position is found there and
/// nowhere else.
pub proof fn lemma_key_at(s: Seq<(u64, u64)>, i: int)
    requires
        distinct_keys(s),
        0 <= i < s.len(),
    ensures
        has_key(s, s[i].0),
        index_of_key(s, s[i].0) == i,
        lookup(s, s[i].0) == Some(s[i].1),
{
}

/// Taking a key out keeps the keys distinct, leaves that key absent, and
/// shortens the order by one exactly when the key was present.
pub proof fn lemma_without(s: Seq<(u64, u64)>, k: u64)
    requires
        distinct_keys(s),
    ensures
        distinct_keys(without(s, k)),
        !has_key(without(s, k), k),
        has_key(s, k) ==> without(s, k).len() == s.len() - 1,
        !has_key(s, k) ==> without(s, k) == s,
{
    if has_key(s, k) {
        let p = index_of_key(s, k);
        let t = s.remove(p);
        if has_key(t, k) {
            let a = index_of_key(t, k);
            lemma_key_at(s, if a < p { a } else { a + 1 });
        }
    }
}

/// Taking a key out changes nothing for the other keys.
pub proof fn lemma_without_other(s: Seq<(u64, u64)>, k: u64, other: u64)
    requires
        distinct_keys(s),
        other != k,
    ensures
        lookup(without(s, k), other) == lookup(s, other),
{
    if has_key(s, k) {
        let p = index_of_key(s, k);
        let t = s.remove(p);
        lemma_without(s, k);
        if has_key(s, other) {
            let q = index_of_key(s, other);
            lemma_key_at(t, if q < p { q } else { q - 1 });
        }
        if has_key(t, other) {
            let a = index_of_key(t, other);
            lemma_key_at(s, if a < p { a } else { a + 1 });
            lemma_key_at(t, a);
        }
    }
}

/// After `put` the keys are distinct, the pair put in is the most recent
/// one, and the order has grown by one exactly when the key was new.
pub proof fn lemma_put(s: Seq<(u64, u64)>, k: u64, v: u64)
    requires
        distinct_keys(s),
    ensures
        distinct_keys(put(s, k, v)),
        put(s, k, v).last() == (k, v),
        lookup(put(s, k, v), k) == Some(v),
        has_key(s, k) ==> put(s, k, v).len() == s.len(),
        !has_key(s, k) ==> put(s, k, v).len() == s.len() + 1,
{
    lemma_without(s, k);
    lemma_key_at(put(s, k, v), put(s, k, v).len() - 1);
}

/// `put` changes nothing for the other keys.
pub proof fn lemma_put_other(s: Seq<(u64, u64)>, k: u64, v: u64, other: u64)
    requires
        distinct_keys(s),
        other != k,
    ensures
        lookup(put(s, k, v), other) == lookup(s, other),
{
    lemma_without(s, k);
    lemma_without_other(s, k, other);
    lemma_put(s, k, v);
    let w = without(s, k);
    let t = put(s, k, v);
    if has_key(w, other) {
        let q = index_of_key(w, other);
        lemma_key_at(t, q);
        lemma_key_at(w, q);
    }
    if has_key(t, other) {
        let a = index_of_key(t, other);
        lemma_key_at(w, a);
        lemma_key_at(t, a);
    }
}

/// A lookup moves a pair and changes no value: every key is found as before.
pub proof fn lemma_touch(s: Seq<(u64, u64)>, k: u64, any: u64)
    requires
        distinct_keys(s),
    ensures
        distinct_keys(touch(s, k)),
        touch(s, k).len() == s.len(),
        lookup(touch(s, k), any) == lookup(s, any),
        has_key(s, k) ==> touch(s, k).last() == (k, value_of(s, k)),
{
    if has_key(s, k) {
        lemma_put(s, k, value_of(s, k));
        if any != k {
            lemma_put_other(s, k, value_of(s, k), any);
        }
    }
}

/// Trimming keeps the keys distinct and leaves `cap` pairs, or all there
/// were.
pub proof fn lemma_trim(s: Seq<(u64, u64)>, cap: nat)
    requires
        distinct_keys(s),
    ensures
        distinct_keys(trim(s, cap)),
        trim(s, cap).len() == if s.len() > cap { cap } else { s.len() },
{
}

/// Replacing a value in place keeps the keys, their order and every other
/// value.
pub proof fn lemma_with_value(s: Seq<(u64, u64)>, k: u64, v: u64, any: u64)
    requires
        distinct_keys(s),
    ensures
        distinct_keys(with_value(s, k, v)),
        with_value(s, k, v).len() == s.len(),
        has_key(with_value(s, k, v), any) == has_key(s, any),
        has_key(s, k) ==> index_of_key(with_value(s, k, v), k) == index_of_key(s, k),
        has_key(s, k) ==> lookup(with_value(s, k, v), k) == Some(v),
        any != k ==> lookup(with_value(s, k, v), any) == lookup(s, any),
{
    if has_key(s, k) {
        let p = index_of_key(s, k);
        let t = with_value(s, k, v);
        lemma_key_at(t, p);
        if has_key(s, any) {
            let q = index_of_key(s, any);
            lemma_key_at(t, q);
        }
        if has_key(t, any) {
            let q = index_of_key(t, any);
            lemma_key_at(t, q);
            lemma_key_at(s, q);
        }
    }
}

/// Under a bound that was kept, the pair put in stays unless the bound is
/// zero, and the value put in shows in nothing but that pair.
pub proof fn lemma_put_bounded_value(s: Seq<(u64, u64)>, cap: nat, k: u64, v: u64, x: u64)
    requires
        distinct_keys(s),
        s.len() <= cap,
    ensures
        distinct_keys(put_bounded(s, cap, k, v)),
        put_bounded(s, cap, k, v).len() <= cap,
        cap == 0 ==> put_bounded(s, cap, k, v) == Seq::<(u64, u64)>::empty(),
        cap > 0 ==> put_bounded(s, cap, k, v).last() == (k, v),
        cap > 0 ==> with_value(put_bounded(s, cap, k, v), k, x) == put_bounded(s, cap, k, x),
        put(s, k, v).len() > cap ==> put_bounded(s, cap, k, v) == put(s, k, v).drop_first(),
{
    lemma_put(s, k, v);
    lemma_put(s, k, x);
    lemma_trim(put(s, k, v), cap);
    lemma_trim(put(s, k, x), cap);
    if cap > 0 {
        lemma_key_at(put_bounded(s, cap, k, v), put_bounded(s, cap, k, v).len() - 1);
    }
}

} // verus!
