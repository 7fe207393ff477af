use admission::config::Config;
use admission::rate_limit::{check_rate_limit, cleanup_rate_limiter, refill, try_consume,
    RateLimiter, RateLimitInfo};

fn test_config(
    rate: u64,
    bucket_size: u64,
    max_entries: usize,
    lifetime_secs: u64,
) -> Config {
    Config {
        secret_key: None,
        max_events_per_second: rate,
        host: String::from("127.0.0.1"),
        port: 8080,
        max_ratelimit_entries: max_entries,
        ratelimiter_cleanup_interval: 60,
        ratelimit_cache_entry_lifetime: lifetime_secs,
        create_session_cost: 5,
        ingest_event_cost: 1,
        token_bucket_size: bucket_size,
        trust_proxy: 0,
        max_json_payload: 4096,
        cors_origins: None,
        redis_connection_hostname: None,
        redis_connection_db: 0,
        redis_connection_port: 6379,
        redis_connection_use_tls: false,
        redis_connection_username: None,
        redis_connection_password: None,
        redis_connection_protocol: None,
    }
}

#[test]
fn concrete_scenario() {
    // rate 5/s, multiplier 10: capacity 50.
    let config = test_config(5, 10, 1000, 300);
    let mut limiter = RateLimiter::new();
    for _ in 0..50 {
        assert!(check_rate_limit(&mut limiter, &config, "10.0.0.1", 1, 0));
    }
    assert_eq!(limiter.get("10.0.0.1").unwrap().tokens, 0);
    assert!(!check_rate_limit(&mut limiter, &config, "10.0.0.1", 1, 0));
    // Two simulated seconds later the bucket has refilled to 10.
    assert!(check_rate_limit(&mut limiter, &config, "10.0.0.1", 8, 2000));
    assert_eq!(limiter.get("10.0.0.1").unwrap().tokens, 2);
}

#[test]
fn first_capacity_calls_admitted_then_denied() {
    // Capacity 6: six unit-cost calls pass, the seventh fails, all at one instant.
    let config = test_config(2, 3, 1000, 300);
    let mut limiter = RateLimiter::new();
    for i in 0..6 {
        assert!(check_rate_limit(&mut limiter, &config, "a", 1, 0), "call {} denied", i);
    }
    assert!(!check_rate_limit(&mut limiter, &config, "a", 1, 0));
    assert_eq!(limiter.get("a").unwrap().tokens, 0);
}

#[test]
fn refill_after_whole_seconds() {
    let config = test_config(2, 3, 1000, 300);
    let mut limiter = RateLimiter::new();
    for _ in 0..6 {
        assert!(check_rate_limit(&mut limiter, &config, "a", 1, 0));
    }
    assert!(!check_rate_limit(&mut limiter, &config, "a", 1, 0));
    // Three whole seconds add 3 * 2 = 6 tokens, back to the capacity cap.
    assert!(check_rate_limit(&mut limiter, &config, "a", 6, 3000));
    assert_eq!(limiter.get("a").unwrap().tokens, 0);
}

#[test]
fn refill_is_capped_at_capacity() {
    let config = test_config(5, 10, 1000, 300);
    let mut limiter = RateLimiter::new();
    assert!(check_rate_limit(&mut limiter, &config, "a", 1, 0));
    assert_eq!(limiter.get("a").unwrap().tokens, 49);
    // A very long wait still refills only up to 50.
    assert!(check_rate_limit(&mut limiter, &config, "a", 0, 1_000_000));
    assert_eq!(limiter.get("a").unwrap().tokens, 50);
}

#[test]
fn no_refill_within_one_second() {
    let config = test_config(5, 2, 1000, 300);
    let mut limiter = RateLimiter::new();
    for _ in 0..10 {
        assert!(check_rate_limit(&mut limiter, &config, "a", 1, 0));
    }
    // 999 ms is less than a whole second: still empty.
    assert!(!check_rate_limit(&mut limiter, &config, "a", 1, 999));
    assert!(!check_rate_limit(&mut limiter, &config, "a", 1, 999));
    assert_eq!(limiter.get("a").unwrap().tokens, 0);
    // At a full second the bucket gains 5 tokens; note the sub-second calls
    // did not move the refill clock.
    assert!(check_rate_limit(&mut limiter, &config, "a", 5, 1000));
    assert_eq!(limiter.get("a").unwrap().tokens, 0);
}

#[test]
fn per_key_isolation() {
    let config = test_config(2, 3, 1000, 300);
    let mut limiter = RateLimiter::new();
    for _ in 0..6 {
        assert!(check_rate_limit(&mut limiter, &config, "a", 1, 0));
    }
    let a_before = limiter.get("a").unwrap().tokens;
    // Draining key "a" leaves key "b" with a full fresh bucket.
    assert!(check_rate_limit(&mut limiter, &config, "b", 1, 0));
    assert_eq!(limiter.get("b").unwrap().tokens, 5);
    // And touching "b" did not move "a".
    assert_eq!(limiter.get("a").unwrap().tokens, a_before);
    assert!(!check_rate_limit(&mut limiter, &config, "a", 1, 0));
}

#[test]
fn denied_calls_still_count_as_activity() {
    let config = test_config(1, 1, 1000, 10);
    let mut limiter = RateLimiter::new();
    assert!(check_rate_limit(&mut limiter, &config, "a", 1, 0));
    // A denied check at 8 s updates last_access even though nothing is spent.
    assert!(!check_rate_limit(&mut limiter, &config, "a", 5, 8_000));
    assert_eq!(limiter.get("a").unwrap().last_access, 8_000);
    // So a sweep at 15 s (7 s after the denial) keeps the entry.
    cleanup_rate_limiter(&mut limiter, &config, 15_000);
    assert!(limiter.get("a").is_some());
}

#[test]
fn age_eviction() {
    let config = test_config(1, 5, 1000, 10);
    let mut limiter = RateLimiter::new();
    assert!(check_rate_limit(&mut limiter, &config, "old", 1, 0));
    assert!(check_rate_limit(&mut limiter, &config, "recent", 1, 5_000));
    // At 11 s the first entry is 11 s old (beyond the 10 s lifetime), the
    // second 6 s old.
    cleanup_rate_limiter(&mut limiter, &config, 11_000);
    assert!(limiter.get("old").is_none());
    assert!(limiter.get("recent").is_some());
    assert_eq!(limiter.len(), 1);
}

#[test]
fn entry_exactly_at_lifetime_survives() {
    let config = test_config(1, 5, 1000, 10);
    let mut limiter = RateLimiter::new();
    assert!(check_rate_limit(&mut limiter, &config, "a", 1, 0));
    // Exactly the lifetime is not "older than" it.
    cleanup_rate_limiter(&mut limiter, &config, 10_000);
    assert!(limiter.get("a").is_some());
    cleanup_rate_limiter(&mut limiter, &config, 10_001);
    assert!(limiter.get("a").is_none());
}

#[test]
fn capacity_eviction_keeps_newest() {
    let config = test_config(1, 5, 3, 300);
    let mut limiter = RateLimiter::new();
    // Eight clients, all within the lifetime, with distinct access times.
    let keys = ["k0", "k1", "k2", "k3", "k4", "k5", "k6", "k7"];
    for (i, key) in keys.iter().enumerate() {
        assert!(check_rate_limit(&mut limiter, &config, key, 1, (i as u64) * 100));
    }
    assert_eq!(limiter.len(), 8);
    cleanup_rate_limiter(&mut limiter, &config, 1_000);
    // Exactly max_ratelimit_entries survive: the three with the newest
    // last_access; the five oldest are gone.
    assert_eq!(limiter.len(), 3);
    for key in &keys[0..5] {
        assert!(limiter.get(key).is_none(), "{} should have been evicted", key);
    }
    for key in &keys[5..8] {
        assert!(limiter.get(key).is_some(), "{} should have survived", key);
    }
}

#[test]
fn sweep_is_idempotent() {
    let config = test_config(1, 5, 3, 10);
    let mut limiter = RateLimiter::new();
    let keys = ["k0", "k1", "k2", "k3", "k4", "k5"];
    for (i, key) in keys.iter().enumerate() {
        assert!(check_rate_limit(&mut limiter, &config, key, 1, (i as u64) * 100));
    }
    cleanup_rate_limiter(&mut limiter, &config, 2_000);
    let len_after_first = limiter.len();
    let survivors: Vec<Option<RateLimitInfo>> = keys.iter().map(|k| limiter.get(k)).collect();
    // A second sweep at the same instant with no intervening activity
    // removes nothing more and changes no bucket.
    cleanup_rate_limiter(&mut limiter, &config, 2_000);
    assert_eq!(limiter.len(), len_after_first);
    for (key, before) in keys.iter().zip(survivors) {
        match (before, limiter.get(key)) {
            (None, None) => {}
            (Some(b), Some(a)) => {
                assert_eq!(a.tokens, b.tokens);
                assert_eq!(a.last_refill, b.last_refill);
                assert_eq!(a.last_access, b.last_access);
            }
            _ => panic!("sweep was not idempotent for {}", key),
        }
    }
}

#[test]
fn tokens_stay_bounded() {
    let config = test_config(3, 4, 1000, 300);
    let max = 12;
    let mut limiter = RateLimiter::new();
    let mut now = 0;
    for step in 0..100u64 {
        // A mix of costs, some sub-second gaps, some long waits.
        let cost = step % 5;
        now += if step % 3 == 0 { 250 } else { 40_000 };
        check_rate_limit(&mut limiter, &config, "a", cost, now);
        let tokens = limiter.get("a").unwrap().tokens;
        assert!(tokens <= max, "tokens {} above capacity {}", tokens, max);
    }
}

#[test]
fn fresh_key_with_oversized_cost_is_denied() {
    let config = test_config(2, 3, 1000, 300);
    let mut limiter = RateLimiter::new();
    assert!(!check_rate_limit(&mut limiter, &config, "a", 7, 0));
    // The entry was still created, untouched at full capacity.
    let info = limiter.get("a").unwrap();
    assert_eq!(info.tokens, 6);
    assert_eq!(info.last_access, 0);
}

#[test]
fn operation_costs_draw_down_differently() {
    let config = test_config(5, 2, 1000, 300);
    let mut limiter = RateLimiter::new();
    // Session creation costs 5, event ingestion 1, against the same budget.
    assert!(check_rate_limit(&mut limiter, &config, "a", config.create_session_cost, 0));
    assert_eq!(limiter.get("a").unwrap().tokens, 5);
    assert!(check_rate_limit(&mut limiter, &config, "a", config.ingest_event_cost, 0));
    assert_eq!(limiter.get("a").unwrap().tokens, 4);
}

#[test]
fn sweep_of_empty_store_is_a_noop() {
    let config = test_config(1, 1, 10, 10);
    let mut limiter = RateLimiter::new();
    cleanup_rate_limiter(&mut limiter, &config, 1_000_000);
    assert_eq!(limiter.len(), 0);
    assert!(limiter.get("nobody").is_none());
}

#[test]
fn refill_unit_steps() {
    let config = test_config(4, 5, 1000, 300);
    let info = RateLimitInfo { tokens: 3, last_refill: 1_000, last_access: 1_000 };
    // 2.9 elapsed seconds count as 2.
    let r = refill(&config, info, 3_900);
    assert_eq!(r.tokens, 11);
    assert_eq!(r.last_refill, 3_900);
    // Under one second: untouched, the refill clock does not move.
    let r = refill(&config, info, 1_999);
    assert_eq!(r.tokens, 3);
    assert_eq!(r.last_refill, 1_000);
}

#[test]
fn try_consume_only_when_enough() {
    let info = RateLimitInfo { tokens: 4, last_refill: 0, last_access: 0 };
    let (after, admitted) = try_consume(info, 4);
    assert!(admitted);
    assert_eq!(after.tokens, 0);
    let (after, admitted) = try_consume(info, 5);
    assert!(!admitted);
    assert_eq!(after.tokens, 4);
}
