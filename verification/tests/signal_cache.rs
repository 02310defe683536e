use wy_ui::signal_cache::{KeySource, SignalCache};

#[test]
fn cache_and_get() {
    let mut cache = SignalCache::new();
    cache.cache_signal_value(1, 42i32);
    assert_eq!(cache.get_cached_signal(1), Some(42));
    assert_eq!(cache.get_cached_signal(1), None);
}

#[test]
fn overwrite() {
    let mut cache = SignalCache::new();
    cache.cache_signal_value(1, 10i32);
    cache.cache_signal_value(1, 20i32);
    assert_eq!(cache.get_cached_signal(1), Some(20));
}

#[test]
fn clear() {
    let mut cache = SignalCache::new();
    cache.cache_signal_value(1, 10i32);
    cache.clear_signal_cache();
    assert_eq!(cache.get_cached_signal(1), None);
}

#[test]
fn keys_are_distinct_and_increasing() {
    let mut keys = KeySource::new();
    assert_eq!(keys.next_key(), 1);
    assert_eq!(keys.next_key(), 2);
    assert_eq!(keys.next_key(), 3);
}

#[test]
fn other_keys_untouched_by_read() {
    let mut cache = SignalCache::new();
    cache.cache_signal_value(1, "a".to_string());
    cache.cache_signal_value(2, "b".to_string());
    assert_eq!(cache.get_cached_signal(1).as_deref(), Some("a"));
    assert_eq!(cache.get_cached_signal(2).as_deref(), Some("b"));
}
