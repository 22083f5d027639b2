//! A cursor over one key of a cache: the key is either held (occupied) or
//! not (vacant), and the cursor acts on the cache without a second lookup by
//! the caller.
//!
//! A cursor borrows the cache for as long as it lives. Its fields are public
//! so that contracts can speak of the cache behind it, as it is now and as
//! it will be once the borrow has ended; cursors are made by
//! `LruCache::entry`, which also says how the two are tied.

use vstd::pervasive::unreached;
use vstd::prelude::*;

use crate::cache::LruCache;
use crate::order::{
    distinct_keys, has_key, lemma_put, lemma_put_bounded_value, lemma_touch, lemma_with_value,
    lemma_without, put_bounded, touch, value_of, with_value, without,
};
use crate::store::{map_get_mut, map_get_refresh, map_insert, map_remove};

verus! {

/// The cursor over a key that the cache holds.
pub struct OccupiedEntry<'a> {
    /// The cache that the cursor acts on.
    pub cache: &'a mut LruCache,
    /// The key that the cursor stands at.
    pub key: u64,
}

/// The cursor over a key that the cache does not hold.
pub struct VacantEntry<'a> {
    /// The cache that the cursor acts on.
    pub cache: &'a mut LruCache,
    /// The key that the cursor stands at.
    pub key: u64,
}

/// The cursor over a key.
pub enum Entry<'a> {
    /// The key is held.
    Occupied(OccupiedEntry<'a>),
    /// The key is not held.
    Vacant(VacantEntry<'a>),
}

impl<'a> OccupiedEntry<'a> {
    /// The cache is in order and holds the key.
    pub open spec fn wf(&self) -> bool {
        &&& self.cache.wf()
        &&& has_key(self.cache@, self.key)
    }

    /// The key of the cursor.
    pub fn key(&self) -> (k: &u64)
        ensures
            *k == self.key,
    {
        &self.key
    }

    /// The place of the value, for as long as the cursor is borrowed. The
    /// recency order stays as it is.
    pub fn get_mut(&mut self) -> (v: &mut u64)
        requires
            old(self).wf(),
        ensures
            *v == value_of(old(self).cache@, old(self).key),
            final(self).key == old(self).key,
            final(self).cache@ == with_value(old(self).cache@, old(self).key, *final(v)),
            final(self).cache.capacity() == old(self).cache.capacity(),
            *final(final(self).cache) == *final(old(self).cache),
            final(self).wf(),
    {
        proof {
            assert forall|x: u64|
                ({
                    let t = #[trigger] with_value(self.cache@, self.key, x);
                    distinct_keys(t) && has_key(t, self.key) && t.len() == self.cache@.len()
                }) by {
                lemma_with_value(self.cache@, self.key, x, self.key);
            }
        }
        match map_get_mut(&mut self.cache.map, &self.key) {
            Some(v) => v,
            None => unreached(),
        }
    }

    /// The place of the value, for as long as the cache is borrowed. The
    /// recency order stays as it is.
    pub fn into_mut(self) -> (v: &'a mut u64)
        requires
            self.wf(),
        ensures
            *v == value_of(old(self.cache)@, self.key),
            final(self.cache)@ == with_value(old(self.cache)@, self.key, *final(v)),
            final(self.cache).capacity() == old(self.cache).capacity(),
            final(self.cache).wf(),
    {
        match map_get_mut(&mut self.cache.map, &self.key) {
            Some(v) => v,
            None => unreached(),
        }
    }

    /// Writes `value` over the value held, in its place, and hands out the
    /// value that was there.
    pub fn insert(&mut self, value: u64) -> (old_val: u64)
        requires
            old(self).wf(),
        ensures
            old_val == value_of(old(self).cache@, old(self).key),
            final(self).key == old(self).key,
            final(self).cache@ == with_value(old(self).cache@, old(self).key, value),
            final(self).cache.capacity() == old(self).cache.capacity(),
            *final(final(self).cache) == *final(old(self).cache),
            final(self).wf(),
    {
        proof {
            lemma_with_value(self.cache@, self.key, value, self.key);
        }
        match map_get_mut(&mut self.cache.map, &self.key) {
            Some(v) => {
                let old_val = *v;
                *v = value;
                old_val
            },
            None => unreached(),
        }
    }

    /// Takes the pair out of the cache and hands out its value.
    pub fn remove(self) -> (v: u64)
        requires
            self.wf(),
        ensures
            v == value_of(old(self.cache)@, self.key),
            final(self.cache)@ == without(old(self.cache)@, self.key),
            final(self.cache).capacity() == old(self.cache).capacity(),
            final(self.cache).wf(),
    {
        proof {
            lemma_without(self.cache@, self.key);
        }
        match map_remove(&mut self.cache.map, &self.key) {
            Some(v) => v,
            None => unreached(),
        }
    }
}

impl<'a> VacantEntry<'a> {
    /// The cache is in order and does not hold the key.
    pub open spec fn wf(&self) -> bool {
        &&& self.cache.wf()
        &&& !has_key(self.cache@, self.key)
    }

    /// The key of the cursor.
    pub fn key(&self) -> (k: &u64)
        ensures
            *k == self.key,
    {
        &self.key
    }

    /// Puts the pair in as the most recently used one and hands out the
    /// place of its value. Where the cache then holds more pairs than its
    /// bound allows, the least recently used pair leaves. With a bound of
    /// zero that is the pair itself: the place handed out is then one that
    /// the cache keeps aside, and what is written there shows in no pair.
    pub fn insert(self, value: u64) -> (v: &'a mut u64)
        requires
            self.wf(),
        ensures
            *v == value,
            final(self.cache)@ == put_bounded(
                old(self.cache)@,
                old(self.cache).capacity() as nat,
                self.key,
                *final(v),
            ),
            final(self.cache).capacity() == old(self.cache).capacity(),
            final(self.cache).wf(),
    {
        let ghost before = self.cache@;
        let ghost cap = self.cache.capacity() as nat;
        proof {
            lemma_put_bounded_value(before, cap, self.key, value, value);
            lemma_put(before, self.key, value);
        }
        let cache = self.cache;
        map_insert(&mut cache.map, self.key, value);
        if cache.len() > cache.capacity() {
            cache.remove_lru();
        }
        match map_get_mut(&mut cache.map, &self.key) {
            Some(v) => v,
            None => {
                cache.spare = value;
                &mut cache.spare
            },
        }
    }
}

impl<'a> Entry<'a> {
    /// The cursor is in order, whichever kind it is.
    pub open spec fn wf(&self) -> bool {
        match self {
            Entry::Occupied(e) => e.wf(),
            Entry::Vacant(e) => e.wf(),
        }
    }

    /// The key of the cursor, as contracts see it.
    pub open spec fn spec_key(&self) -> u64 {
        match self {
            Entry::Occupied(e) => e.key,
            Entry::Vacant(e) => e.key,
        }
    }

    /// The key of the cursor.
    pub fn key(&self) -> (k: &u64)
        ensures
            *k == self.spec_key(),
    {
        match self {
            Entry::Occupied(e) => e.key(),
            Entry::Vacant(e) => e.key(),
        }
    }

    /// The place of the value under the key. Where the key is held, nothing
    /// is put in and `default` is dropped; where it is not, `default` is put
    /// in as `VacantEntry::insert` does.
    pub fn or_insert(self, default: u64) -> (v: &'a mut u64)
        requires
            self.wf(),
        ensures
            match self {
                Entry::Occupied(e) => {
                    &&& *v == value_of(e.cache@, e.key)
                    &&& final(e.cache)@ == with_value(e.cache@, e.key, *final(v))
                    &&& final(e.cache).capacity() == e.cache.capacity()
                    &&& final(e.cache).wf()
                },
                Entry::Vacant(e) => {
                    &&& *v == default
                    &&& final(e.cache)@ == put_bounded(
                        e.cache@,
                        e.cache.capacity() as nat,
                        e.key,
                        *final(v),
                    )
                    &&& final(e.cache).capacity() == e.cache.capacity()
                    &&& final(e.cache).wf()
                },
            },
    {
        match self {
            Entry::Occupied(e) => e.into_mut(),
            Entry::Vacant(e) => e.insert(default),
        }
    }

    /// As `or_insert`, with the value to put in made by `default`, which is
    /// called only where the key is not held.
    pub fn or_insert_with<F: FnOnce() -> u64>(self, default: F) -> (v: &'a mut u64)
        requires
            self.wf(),
            self is Vacant ==> default.requires(()),
        ensures
            match self {
                Entry::Occupied(e) => {
                    &&& *v == value_of(e.cache@, e.key)
                    &&& final(e.cache)@ == with_value(e.cache@, e.key, *final(v))
                    &&& final(e.cache).capacity() == e.cache.capacity()
                    &&& final(e.cache).wf()
                },
                Entry::Vacant(e) => {
                    &&& default.ensures((), *v)
                    &&& final(e.cache)@ == put_bounded(
                        e.cache@,
                        e.cache.capacity() as nat,
                        e.key,
                        *final(v),
                    )
                    &&& final(e.cache).capacity() == e.cache.capacity()
                    &&& final(e.cache).wf()
                },
            },
    {
        match self {
            Entry::Occupied(e) => e.into_mut(),
            Entry::Vacant(e) => e.insert(default()),
        }
    }
}

impl LruCache {
    /// The cursor over `k`. Asking for it is a use of the key: where the
    /// key is held, it becomes the most recently used one.
    pub fn entry(&mut self, k: u64) -> (e: Entry<'_>)
        requires
            old(self).wf(),
        ensures
            e.wf(),
            e.spec_key() == k,
            e is Occupied <==> has_key(old(self)@, k),
            match e {
                Entry::Occupied(o) => {
                    &&& o.cache@ == touch(old(self)@, k)
                    &&& o.cache.capacity() == old(self).capacity()
                    &&& *final(o.cache) == *final(self)
                },
                Entry::Vacant(v) => {
                    &&& v.cache@ == old(self)@
                    &&& v.cache.capacity() == old(self).capacity()
                    &&& *final(v.cache) == *final(self)
                },
            },
    {
        proof {
            lemma_touch(self@, k, k);
        }
        if map_get_refresh(&mut self.map, &k).is_some() {
            Entry::Occupied(OccupiedEntry { cache: self, key: k })
        } else {
            Entry::Vacant(VacantEntry { cache: self, key: k })
        }
    }
}

} // verus!
