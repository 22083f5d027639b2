//! A cache that holds at most a set number of key-value pairs. When a pair
//! is put in and the bound is exceeded, the pair that was used least
//! recently leaves, where a use is a lookup or putting the pair in.
//!
//! Keys and values are `u64`. The pairs live in a
//! `linked_hash_map::LinkedHashMap`; what that map holds has one name, and
//! what its methods do to it is stated, not proved, in [`store`]. Everything
//! above is proved against those statements: the cache in [`cache`], the
//! cursor over one key in [`entry`], the text form in [`render`], and what
//! holds over whole runs of insertions in [`eviction`]. The vocabulary of
//! all contracts, sequences of pairs ordered from least to most recently
//! used, is in [`order`].
//!
//! ```
//! use lru_cache::LruCache;
//!
//! let mut cache = LruCache::new(2);
//!
//! cache.insert(1, 10);
//! cache.insert(2, 20);
//! cache.insert(3, 30);
//! assert!(cache.get(&1).is_none());
//! assert_eq!(*cache.get(&2).unwrap(), 20);
//! assert_eq!(*cache.get(&3).unwrap(), 30);
//!
//! cache.insert(2, 22);
//! assert_eq!(*cache.get(&2).unwrap(), 22);
//!
//! cache.insert(6, 60);
//! assert!(cache.get(&3).is_none());
//!
//! cache.set_capacity(1);
//! assert!(cache.get(&2).is_none());
//! ```

pub mod cache;
pub mod entry;
pub mod eviction;
pub mod order;
pub mod render;
pub mod store;

pub use cache::LruCache;
pub use entry::{Entry, OccupiedEntry, VacantEntry};
