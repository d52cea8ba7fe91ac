//! What a cache of key-value pairs offers.

use std::hash::Hash;
use vstd::prelude::*;

verus! {

/// A cache that can be used to store key-value pairs. What a cache keeps is
/// its own business: a pair that was inserted may be gone at the next call.
pub trait Cache<K, V>: Send + Sync where
    K: Eq + Hash + Clone + Send + Sync,
    V: Clone + Send + Sync,
 {
    /// The value for a given key, or `None` where the key is not in the cache.
    fn get(&self, key: &K) -> Option<V>;

    /// Inserts a key-value pair.
    fn insert(&self, key: K, value: V);

    /// The total size of the cache.
    fn total_size(&self) -> u64;
}

/// A cache whose keys are ordered.
pub trait OrderedCache<K, V>: Cache<K, V> where
    K: Eq + Hash + Clone + Send + Sync,
    V: Clone + Send + Sync,
 {
    /// The first key in the cache, or `None` where the cache is empty.
    fn first_key(&self) -> Option<K>;

    /// The last key in the cache, or `None` where the cache is empty.
    fn last_key(&self) -> Option<K>;
}

/// An ordered cache that can be walked key by key.
pub trait StreamableOrderedCache<K, V>: OrderedCache<K, V> where
    K: Eq + Hash + Clone + Send + Sync,
    V: Clone + Send + Sync,
 {
    /// The key that follows `key`, or `None` where `key` is not in the cache.
    fn next_key(&self, key: &K) -> Option<K>;

    /// The key that follows `key` with its value, or `None` where that key
    /// or its value is not in the cache.
    fn next_key_and_value(&self, key: &K) -> Option<(K, V)>;
}

} // verus!
