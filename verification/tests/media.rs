use castbell::media::{expired, ttl, ThumbnailCache};
use castbell::time::{Clock, Duration, Instant};

fn later(at: Instant, secs: u64) -> Instant {
    Instant {
        since_start: Duration {
            secs: at.since_start.secs + secs,
            nanos: at.since_start.nanos,
        },
    }
}

#[test]
fn expired_after_ttl() {
    let at = Clock::start().now();
    let now = later(at, 61);
    assert!(expired(at, now, ttl()));
}

#[test]
fn not_expired_before_ttl() {
    let at = Clock::start().now();
    let now = later(at, 59);
    assert!(!expired(at, now, ttl()));
}

#[test]
fn expired_at_boundary() {
    let at = Clock::start().now();
    let now = later(at, ttl().secs);
    assert!(expired(at, now, ttl()));
}

#[test]
fn expired_just_short_of_the_boundary() {
    let at = Instant { since_start: Duration { secs: 5, nanos: 1 } };
    let now = Instant { since_start: Duration { secs: 65, nanos: 0 } };
    assert!(!expired(at, now, ttl()));
    let now = Instant { since_start: Duration { secs: 65, nanos: 1 } };
    assert!(expired(at, now, ttl()));
}

#[test]
fn a_clock_that_went_back_expires_nothing() {
    let at = Instant { since_start: Duration::from_secs(500) };
    let now = Instant { since_start: Duration::from_secs(1) };
    assert!(!expired(at, now, ttl()));
    assert!(expired(at, now, Duration::from_secs(0)));
}

#[test]
fn cache_insert_get_remove() {
    let mut c = ThumbnailCache::new();
    c.insert("id1", vec![1, 2, 3]);
    assert_eq!(c.get("id1"), Some(vec![1, 2, 3]));
    c.remove("id1");
    assert_eq!(c.get("id1"), None);
}

#[test]
fn cache_miss_unknown() {
    let mut c = ThumbnailCache::new();
    assert_eq!(c.get("nope"), None);
}

#[test]
fn cache_serves_until_the_lifetime_is_over() {
    let at = Instant { since_start: Duration::from_secs(10) };
    let mut c = ThumbnailCache::new();
    c.insert_at("id1", vec![1, 2, 3], at);
    assert_eq!(c.get_at("id1", later(at, 59)), Some(vec![1, 2, 3]));
    assert_eq!(c.get_at("id1", later(at, 59)), Some(vec![1, 2, 3]));
    assert_eq!(c.get_at("id1", later(at, 60)), None);
    // The lookup dropped it.
    assert_eq!(c.get_at("id1", at), None);
}

#[test]
fn cache_keeps_ids_apart() {
    let at = Instant { since_start: Duration::from_secs(10) };
    let mut c = ThumbnailCache::new();
    c.insert_at("a", vec![1], at);
    c.insert_at("b", vec![2], later(at, 30));
    c.insert_at("a", vec![3], later(at, 30));
    assert_eq!(c.get_at("a", later(at, 61)), Some(vec![3]));
    c.remove("a");
    assert_eq!(c.get_at("a", later(at, 61)), None);
    assert_eq!(c.get_at("b", later(at, 61)), Some(vec![2]));
}

#[test]
fn eviction_takes_only_what_is_too_old() {
    let at = Instant { since_start: Duration::from_secs(0) };
    let mut c = ThumbnailCache::new();
    c.insert_at("id", vec![1], at);
    c.insert_at("id", vec![2], later(at, 30));
    c.evict_at("id", later(at, 60));
    c.evict_at("other", later(at, 60));
    assert_eq!(c.get_at("id", later(at, 70)), Some(vec![2]));
    c.evict_at("id", later(at, 90));
    assert_eq!(c.get_at("id", later(at, 30)), None);
}

#[test]
fn eviction_now_spares_what_was_just_stored() {
    let mut c = ThumbnailCache::new();
    c.insert("id", vec![1]);
    c.evict("id");
    assert_eq!(c.get("id"), Some(vec![1]));
}

#[test]
fn clock_goes_forward() {
    let clock = Clock::start();
    let first = clock.now();
    let mut turns: u64 = 0;
    while clock.now() == first && turns < 1_000_000_000 {
        turns += 1;
    }
    let second = clock.now();
    assert!(second.since_start.total_nanos() > first.since_start.total_nanos());
}
