//! The cache: a recency order under a bound.

use linked_hash_map::LinkedHashMap;
use vstd::prelude::*;

use crate::order::{
    distinct_keys, has_key, lemma_put, lemma_touch, lemma_trim, lemma_without, lookup, put,
    put_all, put_bounded, touch, trim, without,
};
use crate::store::{
    contents, map_clear, map_clone, map_contains_key, map_get_refresh, map_insert, map_is_empty,
    map_len, map_new, map_pop_front, map_remove,
};

verus! {

/// A cache of at most `capacity()` pairs that drops the least recently used
/// pair when one too many is put in.
pub struct LruCache {
    pub(crate) map: LinkedHashMap<u64, u64>,
    pub(crate) max_size: usize,
    /// Where a vacant entry keeps a value that left the cache as soon as it
    /// was put in, so that the place it hands out stays good to write to.
    pub(crate) spare: u64,
}

impl View for LruCache {
    type V = Seq<(u64, u64)>;

    /// The pairs held, least recently used first.
    open(crate) spec fn view(&self) -> Seq<(u64, u64)> {
        contents(self.map)
    }
}

impl LruCache {
    /// The bound, as contracts see it.
    pub open(crate) spec fn spec_capacity(&self) -> usize {
        self.max_size
    }

    /// What holds of every cache between calls: no key is held twice, and
    /// the bound is kept.
    pub open spec fn wf(&self) -> bool {
        &&& distinct_keys(self@)
        &&& self@.len() <= self.capacity()
    }

    /// An empty cache that holds at most `capacity` pairs.
    pub fn new(capacity: usize) -> (cache: LruCache)
        ensures
            cache@ == Seq::<(u64, u64)>::empty(),
            cache.capacity() == capacity,
            cache.wf(),
    {
        LruCache { map: map_new(), max_size: capacity, spare: 0 }
    }

    /// Puts the pair in as the most recently used one and hands out the
    /// value that the key had before, if it had one. While more pairs are
    /// held than the bound allows, the least recently used one leaves; with
    /// a bound of zero that is the pair just put in.
    pub fn insert(&mut self, k: u64, v: u64) -> (old_val: Option<u64>)
        requires
            old(self).wf(),
        ensures
            final(self).wf(),
            final(self).capacity() == old(self).capacity(),
            final(self)@ == put_bounded(old(self)@, old(self).capacity() as nat, k, v),
            old_val == lookup(old(self)@, k),
            has_key(old(self)@, k) ==> final(self)@.len() == old(self)@.len() && final(self)@.last()
                == (k, v),
            old(self).capacity() == 0 ==> old_val.is_none() && final(self)@.len() == 0,
    {
        let old_val = map_insert(&mut self.map, k, v);
        proof {
            lemma_put(old(self)@, k, v);
            lemma_trim(put(old(self)@, k, v), self.max_size as nat);
        }
        while map_len(&self.map) > self.max_size
            invariant
                self.max_size == old(self).max_size,
                trim(self@, self.max_size as nat) == put_bounded(
                    old(self)@,
                    self.max_size as nat,
                    k,
                    v,
                ),
            decreases self@.len(),
        {
            self.remove_lru();
        }
        old_val
    }

    /// Looks the key up. A key that is found becomes the most recently used
    /// one.
    pub fn get(&mut self, k: &u64) -> (r: Option<&u64>)
        requires
            old(self).wf(),
        ensures
            final(self).wf(),
            final(self).capacity() == old(self).capacity(),
            final(self)@ == touch(old(self)@, *k),
            match r {
                Some(v) => lookup(old(self)@, *k) == Some(*v),
                None => lookup(old(self)@, *k).is_none(),
            },
    {
        proof {
            lemma_touch(old(self)@, *k, *k);
        }
        match map_get_refresh(&mut self.map, k) {
            Some(v) => Some(&*v),
            None => None,
        }
    }

    /// Looks the key up for writing. A key that is found becomes the most
    /// recently used one, and what is written to the place handed out is its
    /// value from then on.
    pub fn get_mut(&mut self, k: &u64) -> (r: Option<&mut u64>)
        requires
            old(self).wf(),
        ensures
            final(self).wf(),
            final(self).capacity() == old(self).capacity(),
            match r {
                Some(v) => {
                    &&& lookup(old(self)@, *k) == Some(*v)
                    &&& final(self)@ == put(old(self)@, *k, *final(v))
                },
                None => {
                    &&& lookup(old(self)@, *k).is_none()
                    &&& final(self)@ == old(self)@
                },
            },
    {
        map_get_refresh(&mut self.map, k)
    }

    /// Whether the key is held. The order stays as it is.
    pub fn contains_key(&self, k: &u64) -> (r: bool)
        ensures
            r == has_key(self@, *k),
    {
        map_contains_key(&self.map, k)
    }

    /// Takes the pair under the key out and hands out its value.
    pub fn remove(&mut self, k: &u64) -> (r: Option<u64>)
        requires
            old(self).wf(),
        ensures
            final(self).wf(),
            final(self).capacity() == old(self).capacity(),
            final(self)@ == without(old(self)@, *k),
            r == lookup(old(self)@, *k),
    {
        proof {
            lemma_without(old(self)@, *k);
        }
        map_remove(&mut self.map, k)
    }

    /// The most pairs that the cache holds.
    #[verifier::when_used_as_spec(spec_capacity)]
    pub fn capacity(&self) -> (n: usize)
        ensures
            n == self.capacity(),
    {
        self.max_size
    }

    /// Sets the bound. Where more pairs are held than the new bound allows,
    /// the least recently used ones leave, oldest first, until it is met;
    /// otherwise every pair stays.
    pub fn set_capacity(&mut self, capacity: usize)
        requires
            old(self).wf(),
        ensures
            final(self).wf(),
            final(self).capacity() == capacity,
            final(self)@ == trim(old(self)@, capacity as nat),
            capacity >= old(self)@.len() ==> final(self)@ == old(self)@,
            capacity < old(self)@.len() ==> final(self)@ == old(self)@.skip(
                old(self)@.len() - capacity,
            ),
    {
        let len = self.len();
        let mut i: usize = capacity;
        while i < len
            invariant
                len == old(self)@.len(),
                capacity <= i,
                i < len ==> self@ == old(self)@.skip(i - capacity),
                capacity >= len ==> self@ == old(self)@,
                i >= len > capacity ==> self@ == old(self)@.skip(len - capacity),
            decreases len - i,
        {
            self.remove_lru();
            i += 1;
        }
        self.max_size = capacity;
        proof {
            lemma_trim(old(self)@, capacity as nat);
        }
    }

    /// Drops the least recently used pair, if any pair is held.
    pub(crate) fn remove_lru(&mut self)
        ensures
            final(self).capacity() == old(self).capacity(),
            old(self)@.len() == 0 ==> final(self)@ == old(self)@,
            old(self)@.len() > 0 ==> final(self)@ == old(self)@.drop_first(),
    {
        map_pop_front(&mut self.map);
    }

    /// The number of pairs held.
    pub fn len(&self) -> (n: usize)
        ensures
            n == self@.len(),
    {
        map_len(&self.map)
    }

    /// Whether no pair is held.
    pub fn is_empty(&self) -> (r: bool)
        ensures
            r == (self@.len() == 0),
    {
        map_is_empty(&self.map)
    }

    /// Drops every pair. The bound stays.
    pub fn clear(&mut self)
        ensures
            final(self)@ == Seq::<(u64, u64)>::empty(),
            final(self).capacity() == old(self).capacity(),
            final(self).wf(),
    {
        map_clear(&mut self.map);
    }

    /// Puts the pairs in one by one, first to last, each as `insert` does.
    pub fn extend(&mut self, items: Vec<(u64, u64)>)
        requires
            old(self).wf(),
        ensures
            final(self).wf(),
            final(self).capacity() == old(self).capacity(),
            final(self)@ == put_all(old(self)@, old(self).capacity() as nat, items@),
    {
        let mut i: usize = 0;
        while i < items.len()
            invariant
                i <= items.len(),
                self.wf(),
                self.capacity() == old(self).capacity(),
                self@ == put_all(old(self)@, old(self).capacity() as nat, items@.take(i as int)),
            decreases items.len() - i,
        {
            let (k, v) = items[i];
            assert(items@.take(i + 1).drop_last() == items@.take(i as int));
            self.insert(k, v);
            i += 1;
        }
        assert(items@.take(i as int) == items@);
    }
}

impl Clone for LruCache {
    /// A cache of its own with the same pairs, in the same order, under the
    /// same bound.
    fn clone(&self) -> (copy: LruCache)
        ensures
            copy@ == self@,
            copy.capacity() == self.capacity(),
    {
        LruCache { map: map_clone(&self.map), max_size: self.max_size, spare: self.spare }
    }
}

} // verus!
