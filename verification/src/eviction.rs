//! What holds over whole runs of insertions under a bound: which pairs are
//! left, and in which order.

use vstd::prelude::*;

use crate::order::{
    distinct_keys, has_key, lemma_key_at, lemma_put_bounded_value, lemma_touch, lemma_trim,
    lookup, put_all, put_bounded, touch, trim,
};

verus! {

/// However many pairs are put in, no key is held twice and the bound is
/// kept.
pub proof fn lemma_put_all_bounded(s: Seq<(u64, u64)>, cap: nat, items: Seq<(u64, u64)>)
    requires
        distinct_keys(s),
        s.len() <= cap,
    ensures
        distinct_keys(put_all(s, cap, items)),
        put_all(s, cap, items).len() <= cap,
    decreases items.len(),
{
    if items.len() > 0 {
        lemma_put_all_bounded(s, cap, items.drop_last());
        lemma_put_bounded_value(
            put_all(s, cap, items.drop_last()),
            cap,
            items.last().0,
            items.last().1,
            items.last().1,
        );
    }
}

/// Pairs with distinct keys, no more of them than the bound, are the most
/// recent pairs after they were put in, in the order in which they were put
/// in.
pub proof fn lemma_put_all_recent(s: Seq<(u64, u64)>, cap: nat, items: Seq<(u64, u64)>)
    requires
        distinct_keys(s),
        s.len() <= cap,
        distinct_keys(items),
        items.len() <= cap,
    ensures
        put_all(s, cap, items).len() >= items.len(),
        put_all(s, cap, items).skip(put_all(s, cap, items).len() - items.len()) == items,
    decreases items.len(),
{
    if items.len() > 0 {
        let init = items.drop_last();
        let held = put_all(s, cap, init);
        lemma_put_all_recent(s, cap, init);
        lemma_put_all_bounded(s, cap, init);
        // The last pairs of `held` are `init`, so the key of the pair that
        // comes now is found before them, if at all.
        let rest = held.len() - init.len();
        assert forall|a: int| rest <= a < held.len() implies #[trigger] held[a] == items[a
            - rest] by {
            assert(held.skip(rest)[a - rest] == held[a]);
        }
    }
}

/// As many pairs with distinct keys as the bound allows fill the cache:
/// after they were put in, they are what is held.
pub proof fn lemma_put_all_fills(s: Seq<(u64, u64)>, cap: nat, items: Seq<(u64, u64)>)
    requires
        distinct_keys(s),
        s.len() <= cap,
        distinct_keys(items),
        items.len() == cap,
    ensures
        put_all(s, cap, items) == items,
{
    lemma_put_all_recent(s, cap, items);
    lemma_put_all_bounded(s, cap, items);
}

/// The least recently used pair leaves first: after one more pair than the
/// bound allows was put in, all under distinct keys and with no lookup in
/// between, the first of them is gone and the others are held, in the
/// order in which they were put in.
pub proof fn lemma_least_recent_leaves(s: Seq<(u64, u64)>, cap: nat, items: Seq<(u64, u64)>)
    requires
        distinct_keys(s),
        s.len() <= cap,
        distinct_keys(items),
        items.len() == cap + 1,
    ensures
        put_all(s, cap, items) == items.drop_first(),
        !has_key(put_all(s, cap, items), items[0].0),
        forall|i: int|
            1 <= i < items.len() ==> lookup(put_all(s, cap, items), (#[trigger] items[i]).0)
                == Some(items[i].1),
{
    let held = put_all(s, cap, items);
    lemma_put_all_fills(s, cap, items.drop_last());
    assert forall|i: int| 1 <= i < items.len() implies lookup(held, (#[trigger] items[i]).0)
        == Some(items[i].1) by {
        assert(held[i - 1] == items[i]);
        lemma_key_at(held, i - 1);
    }
}

/// A lookup spares a pair: in a cache of two or more pairs that was filled
/// with pairs under distinct keys, after the first of them was looked up and
/// one pair under a new key was put in, the second of them is gone and the
/// first is held.
pub proof fn lemma_lookup_spares(
    s: Seq<(u64, u64)>,
    cap: nat,
    items: Seq<(u64, u64)>,
    k: u64,
    v: u64,
)
    requires
        distinct_keys(s),
        s.len() <= cap,
        cap >= 2,
        distinct_keys(items),
        items.len() == cap,
        !has_key(items, k),
    ensures
        put_all(s, cap, items) == items,
        put_bounded(touch(items, items[0].0), cap, k, v) == items.skip(2).push(items[0]).push(
            (k, v),
        ),
        !has_key(put_bounded(touch(items, items[0].0), cap, k, v), items[1].0),
        lookup(put_bounded(touch(items, items[0].0), cap, k, v), items[0].0) == Some(items[0].1),
{
    lemma_put_all_fills(s, cap, items);
    lemma_key_at(items, 0);
    lemma_touch(items, items[0].0, k);
    lemma_key_at(put_bounded(touch(items, items[0].0), cap, k, v), cap - 2);
}

/// Under a smaller bound the least recently used pairs are the ones that
/// leave: the pair at position `i` stays, with its value, exactly when fewer
/// than `cap` pairs are more recent than it.
pub proof fn lemma_trim_keeps_most_recent(s: Seq<(u64, u64)>, cap: nat, i: int)
    requires
        distinct_keys(s),
        0 <= i < s.len(),
    ensures
        i + cap >= s.len() ==> lookup(trim(s, cap), s[i].0) == Some(s[i].1),
        i + cap < s.len() ==> !has_key(trim(s, cap), s[i].0),
{
    lemma_trim(s, cap);
    if s.len() <= cap {
        lemma_key_at(s, i);
    } else if i + cap >= s.len() {
        lemma_key_at(trim(s, cap), i - (s.len() - cap));
    }
}

} // verus!
