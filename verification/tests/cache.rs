use sonora::cache::{ArtworkCache, CacheStep, FOUND_TTL_MS, MIN_REQUEST_INTERVAL_MS, MISSED_TTL_MS, PENDING_TTL_MS};

#[test]
fn first_lookup_requests_without_waiting() {
    let mut cache = ArtworkCache::new();
    assert_eq!(cache.begin_lookup("a|b|c", 5_000), CacheStep::Fetch { wait_ms: 0 });
}

#[test]
fn found_artwork_is_answered_until_it_expires() {
    let mut cache = ArtworkCache::new();
    cache.record_request("key", 1_000);
    cache.record_result("key", Some("data:image/png;base64,AA==".to_string()), 2_000);
    assert_eq!(
        cache.begin_lookup("key", 2_000 + FOUND_TTL_MS - 1),
        CacheStep::Cached(Some("data:image/png;base64,AA==".to_string()))
    );
    assert!(matches!(cache.begin_lookup("key", 2_000 + FOUND_TTL_MS), CacheStep::Fetch { .. }));
}

#[test]
fn a_miss_is_remembered_for_half_an_hour() {
    let mut cache = ArtworkCache::new();
    cache.record_request("key", 0);
    cache.record_result("key", None, 10);
    assert_eq!(cache.begin_lookup("key", 10 + MISSED_TTL_MS - 1), CacheStep::Cached(None));
    assert!(matches!(cache.begin_lookup("key", 10 + MISSED_TTL_MS), CacheStep::Fetch { .. }));
}

#[test]
fn a_lookup_in_progress_is_not_repeated() {
    let mut cache = ArtworkCache::new();
    cache.record_request("key", 100);
    assert_eq!(cache.begin_lookup("key", 100 + PENDING_TTL_MS - 1), CacheStep::Cached(None));
    assert!(matches!(cache.begin_lookup("key", 100 + PENDING_TTL_MS), CacheStep::Fetch { .. }));
}

#[test]
fn requests_are_kept_apart() {
    let mut cache = ArtworkCache::new();
    cache.record_request("one", 10_000);
    assert_eq!(cache.begin_lookup("two", 10_400), CacheStep::Fetch { wait_ms: MIN_REQUEST_INTERVAL_MS - 400 });
    assert_eq!(cache.begin_lookup("two", 10_000 + MIN_REQUEST_INTERVAL_MS), CacheStep::Fetch { wait_ms: 0 });
    assert_eq!(cache.begin_lookup("two", 9_000), CacheStep::Fetch { wait_ms: MIN_REQUEST_INTERVAL_MS });
}

#[test]
fn keys_are_kept_apart() {
    let mut cache = ArtworkCache::new();
    cache.record_request("one", 0);
    cache.record_result("one", Some("x".to_string()), 0);
    cache.record_request("two", 0);
    cache.record_result("two", Some("y".to_string()), 0);
    assert_eq!(cache.begin_lookup("one", 1), CacheStep::Cached(Some("x".to_string())));
    assert_eq!(cache.begin_lookup("two", 1), CacheStep::Cached(Some("y".to_string())));
    cache.record_result("one", Some("z".to_string()), 2);
    assert_eq!(cache.begin_lookup("one", 3), CacheStep::Cached(Some("z".to_string())));
}
