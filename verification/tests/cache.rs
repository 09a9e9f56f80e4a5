use reliable_provider::cache::ResponseCache;

fn put(cache: &mut ResponseCache, key: &str, response: &str, now: u64) {
    cache.put(key.to_string(), response.to_string(), now);
}

#[test]
fn put_then_get_returns_the_response() {
    let mut cache = ResponseCache::new(120, 256);
    put(&mut cache, "k", "r", 1000);
    assert_eq!(cache.get("k", 1000), Some("r".to_string()));
    assert_eq!(cache.get("other", 1000), None);
    assert_eq!(cache.len(), 1);
}

#[test]
fn entry_lives_exactly_its_ttl() {
    let mut cache = ResponseCache::new(2, 8);
    put(&mut cache, "k", "r", 500);
    assert_eq!(cache.get("k", 2500), Some("r".to_string()));
    assert_eq!(cache.len(), 1);
    assert_eq!(cache.get("k", 2501), None);
    assert_eq!(cache.len(), 0);
}

#[test]
fn read_sweeps_every_expired_entry() {
    let mut cache = ResponseCache::new(1, 8);
    put(&mut cache, "a", "1", 0);
    put(&mut cache, "b", "2", 500);
    put(&mut cache, "c", "3", 1500);
    assert_eq!(cache.len(), 3);
    // At 1501, `a` (age 1501) and `b` (age 1001) are gone, `c` stays.
    assert_eq!(cache.get("zzz", 1501), None);
    assert_eq!(cache.len(), 1);
    assert_eq!(cache.get("c", 1501), Some("3".to_string()));
}

#[test]
fn zero_ttl_or_zero_capacity_switches_the_cache_off() {
    let mut cache = ResponseCache::new(0, 8);
    put(&mut cache, "k", "r", 0);
    assert_eq!(cache.len(), 0);
    assert_eq!(cache.get("k", 0), None);
    let mut cache = ResponseCache::new(120, 0);
    put(&mut cache, "k", "r", 0);
    assert_eq!(cache.len(), 0);
    assert_eq!(cache.get("k", 0), None);
}

#[test]
fn oldest_entry_goes_first_when_full() {
    let mut cache = ResponseCache::new(1000, 2);
    put(&mut cache, "a", "1", 10);
    put(&mut cache, "b", "2", 20);
    put(&mut cache, "c", "3", 30);
    assert_eq!(cache.len(), 2);
    assert_eq!(cache.get("a", 30), None);
    assert_eq!(cache.get("b", 30), Some("2".to_string()));
    assert_eq!(cache.get("c", 30), Some("3".to_string()));
}

#[test]
fn eviction_goes_by_insertion_time_not_by_use() {
    let mut cache = ResponseCache::new(1000, 2);
    put(&mut cache, "a", "1", 10);
    put(&mut cache, "b", "2", 20);
    // Reading `a` does not make it any younger.
    assert_eq!(cache.get("a", 25), Some("1".to_string()));
    put(&mut cache, "c", "3", 30);
    assert_eq!(cache.get("a", 30), None);
    assert_eq!(cache.get("b", 30), Some("2".to_string()));
}

#[test]
fn storing_again_replaces_and_restamps() {
    let mut cache = ResponseCache::new(1000, 2);
    put(&mut cache, "a", "1", 10);
    put(&mut cache, "b", "2", 20);
    put(&mut cache, "a", "1b", 30);
    assert_eq!(cache.len(), 2);
    assert_eq!(cache.get("a", 30), Some("1b".to_string()));
    // `b` is now the oldest.
    put(&mut cache, "c", "3", 40);
    assert_eq!(cache.get("b", 40), None);
    assert_eq!(cache.get("a", 40), Some("1b".to_string()));
    assert_eq!(cache.get("c", 40), Some("3".to_string()));
}

#[test]
fn among_equally_old_entries_the_first_stored_goes() {
    let mut cache = ResponseCache::new(1000, 2);
    put(&mut cache, "a", "1", 10);
    put(&mut cache, "b", "2", 10);
    put(&mut cache, "c", "3", 10);
    assert_eq!(cache.get("a", 10), None);
    assert_eq!(cache.get("b", 10), Some("2".to_string()));
    assert_eq!(cache.get("c", 10), Some("3".to_string()));
}

#[test]
fn entry_stamped_before_all_others_is_the_one_to_go() {
    let mut cache = ResponseCache::new(1000, 2);
    put(&mut cache, "a", "1", 100);
    put(&mut cache, "b", "2", 200);
    // The clock reading handed in is behind what the cache holds.
    put(&mut cache, "c", "3", 50);
    assert_eq!(cache.len(), 2);
    assert_eq!(cache.get("c", 200), None);
    assert_eq!(cache.get("a", 200), Some("1".to_string()));
    assert_eq!(cache.get("b", 200), Some("2".to_string()));
}

#[test]
fn entry_from_the_future_has_age_zero() {
    let mut cache = ResponseCache::new(1, 4);
    put(&mut cache, "k", "r", 10_000);
    assert_eq!(cache.get("k", 0), Some("r".to_string()));
}

#[test]
fn capacity_of_one_keeps_the_latest() {
    let mut cache = ResponseCache::new(10, 1);
    for i in 0..20u64 {
        put(&mut cache, &format!("k{}", i), &format!("r{}", i), i);
        assert_eq!(cache.len(), 1);
        assert_eq!(cache.get(&format!("k{}", i), i), Some(format!("r{}", i)));
    }
}

#[test]
fn size_never_exceeds_capacity() {
    let mut cache = ResponseCache::new(5, 3);
    for i in 0..50u64 {
        put(&mut cache, &format!("k{}", i % 7), "r", i * 700);
        assert!(cache.len() <= 3);
        let _ = cache.get("k0", i * 700 + 1);
        assert!(cache.len() <= 3);
    }
}

#[test]
fn ttl_does_not_overflow_at_the_limit() {
    let mut cache = ResponseCache::new(u64::MAX, 2);
    put(&mut cache, "k", "r", 0);
    assert_eq!(cache.get("k", u64::MAX), Some("r".to_string()));
}
