//! Cache of signal values read while the tree is built and taken back while
//! it is drawn (a read while drawing would not be tracked as a dependency).
use vstd::prelude::*;
use std::collections::HashMap;

verus! {

broadcast use vstd::std_specs::hash::group_hash_axioms;

/// The counter after one key was handed out: one more, or 0 after the
/// largest key.
pub open spec fn next_counter(c: u64) -> u64 {
    if c == u64::MAX {
        0
    } else {
        (c + 1) as u64
    }
}

/// The counter of a new source after `n` keys were handed out.
pub open spec fn counter_after(n: nat) -> u64
    decreases n,
{
    if n == 0 {
        1
    } else {
        next_counter(counter_after((n - 1) as nat))
    }
}

/// Source of unique cache keys: 1, 2, 3, ... (after the largest key it goes
/// round to 0).
pub struct KeySource {
    next: u64,
}

impl View for KeySource {
    type V = u64;

    closed spec fn view(&self) -> u64 {
        self.next
    }
}

impl KeySource {
    /// A source whose first key is 1.
    pub fn new() -> (r: Self)
        ensures
            r@ == 1,
    {
        KeySource { next: 1 }
    }

    /// A fresh key: the current counter, which then moves on by one.
    pub fn next_key(&mut self) -> (r: u64)
        ensures
            r == old(self)@,
            final(self)@ == next_counter(old(self)@),
    {
        let k = self.next;
        self.next = if k == u64::MAX {
            0
        } else {
            k + 1
        };
        k
    }
}

/// Values cached by key; reading a value takes it out.
pub struct SignalCache<V> {
    map: HashMap<u64, V>,
}

impl<V> View for SignalCache<V> {
    type V = Map<u64, V>;

    closed spec fn view(&self) -> Map<u64, V> {
        self.map@
    }
}

impl<V> SignalCache<V> {
    /// An empty cache.
    pub fn new() -> (r: Self)
        ensures
            r@ == Map::<u64, V>::empty(),
    {
        SignalCache { map: HashMap::new() }
    }

    /// Caches `value` under `key`, replacing what was there.
    pub fn cache_signal_value(&mut self, key: u64, value: V)
        ensures
            final(self)@ == old(self)@.insert(key, value),
    {
        self.map.insert(key, value);
    }

    /// Takes the value cached under `key` out of the cache.
    pub fn get_cached_signal(&mut self, key: u64) -> (r: Option<V>)
        ensures
            r == (if old(self)@.contains_key(key) { Some(old(self)@[key]) } else { None }),
            final(self)@ == old(self)@.remove(key),
    {
        let r = self.map.remove(&key);
        assert(self.map@ =~= old(self)@.remove(key));
        r
    }

    /// Empties the cache (at the start of each frame).
    pub fn clear_signal_cache(&mut self)
        ensures
            final(self)@ == Map::<u64, V>::empty(),
    {
        self.map.clear();
    }
}

/// Law: the keys of a new source are 1, 2, 3, ... in the order they are
/// handed out, until the counter reaches its largest value: the key handed
/// out by call `n + 1` is `n + 1`, so keys grow and never repeat.
pub proof fn law_keys_count_up(n: nat)
    requires
        n < u64::MAX,
    ensures
        counter_after(n) == n + 1,
    decreases n,
{
    if n > 0 {
        law_keys_count_up((n - 1) as nat);
    }
}

/// The counter after `m` more keys were handed out from counter `c`.
pub open spec fn counter_advanced(c: u64, m: nat) -> u64
    decreases m,
{
    if m == 0 {
        c
    } else {
        next_counter(counter_advanced(c, (m - 1) as nat))
    }
}

/// Law: from any counter `c`, `m` more keys later the counter is `c + m`
/// while it does not pass the largest value; so a key handed out later than
/// key `c` (`m > 0`) is larger than `c`.
pub proof fn law_later_keys_larger(c: u64, m: nat)
    requires
        c + m <= u64::MAX,
    ensures
        counter_advanced(c, m) == c + m,
        m > 0 ==> counter_advanced(c, m) > c,
    decreases m,
{
    if m > 0 {
        law_later_keys_larger(c, (m - 1) as nat);
    }
}

/// Law: of two keys handed out by a new source before its counter wraps,
/// the later one is larger.
pub proof fn law_later_key_larger(i: nat, j: nat)
    requires
        i < j < u64::MAX,
    ensures
        counter_after(i) < counter_after(j),
{
    law_keys_count_up(i);
    law_keys_count_up(j);
}

/// Law: a cached value is read back once: the first read gives it, a second
/// read gives nothing.
pub proof fn law_cache_read_once<V>(m: Map<u64, V>, key: u64, value: V)
    ensures
        m.insert(key, value).contains_key(key) && m.insert(key, value)[key] == value,
        !m.insert(key, value).remove(key).contains_key(key),
{
}

/// Law: caching twice under one key keeps the second value.
pub proof fn law_cache_overwrite<V>(m: Map<u64, V>, key: u64, v1: V, v2: V)
    ensures
        m.insert(key, v1).insert(key, v2)[key] == v2,
{
}

} // verus!
