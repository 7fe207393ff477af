use admission::api::compare_secrets;
use admission::config::{parse_bool, parse_redis_protocol, validate_limiter_config, Config,
    RedisProtocol};
use admission::origins::{extract_allowed_origins, origin_allowed};
use admission::text::{str_eq, starts_with, trim};

fn base_config() -> Config {
    Config {
        secret_key: None,
        max_events_per_second: 5,
        host: String::from("127.0.0.1"),
        port: 8080,
        max_ratelimit_entries: 1000,
        ratelimiter_cleanup_interval: 60,
        ratelimit_cache_entry_lifetime: 300,
        create_session_cost: 5,
        ingest_event_cost: 1,
        token_bucket_size: 10,
        trust_proxy: 0,
        max_json_payload: 4096,
        cors_origins: None,
        redis_connection_hostname: None,
        redis_connection_db: 0,
        redis_connection_port: 6379,
        redis_connection_use_tls: false,
        redis_connection_username: None,
        redis_connection_password: None,
        redis_connection_protocol: None,
    }
}

#[test]
fn parse_bool_true_spellings() {
    for s in ["true", "True", "TRUE", "yes", "y", "YES", "Y", "1"] {
        assert!(parse_bool(Some(String::from(s)), false), "{} should read as true", s);
    }
}

#[test]
fn parse_bool_false_spellings() {
    for s in ["false", "False", "FALSE", "no", "n", "NO", "N", "0"] {
        assert!(!parse_bool(Some(String::from(s)), true), "{} should read as false", s);
    }
}

#[test]
fn parse_bool_fallbacks() {
    assert!(parse_bool(None, true));
    assert!(!parse_bool(None, false));
    assert!(parse_bool(Some(String::new()), true));
    assert!(!parse_bool(Some(String::new()), false));
    assert!(parse_bool(Some(String::from("maybe")), true));
    assert!(!parse_bool(Some(String::from("YeS")), false));
}

#[test]
fn validate_limiter_config_rejects_zero_capacity() {
    let mut config = base_config();
    assert!(validate_limiter_config(&config));
    config.max_events_per_second = 0;
    assert!(!validate_limiter_config(&config));
    config.max_events_per_second = 5;
    config.token_bucket_size = 0;
    assert!(!validate_limiter_config(&config));
}

#[test]
fn validate_limiter_config_rejects_overflowing_capacity() {
    let mut config = base_config();
    config.max_events_per_second = u64::MAX;
    config.token_bucket_size = 2;
    assert!(!validate_limiter_config(&config));
    config.token_bucket_size = 1;
    assert!(validate_limiter_config(&config));
}

#[test]
fn redis_protocol_spellings() {
    assert_eq!(parse_redis_protocol(Some(String::from("resp2"))), Some(RedisProtocol::Resp2));
    assert_eq!(parse_redis_protocol(Some(String::from("resp3"))), Some(RedisProtocol::Resp3));
    assert_eq!(parse_redis_protocol(None), Some(RedisProtocol::Resp3));
    assert_eq!(parse_redis_protocol(Some(String::from("resp4"))), None);
    assert_eq!(parse_redis_protocol(Some(String::from("RESP2"))), None);
}

#[test]
fn extract_origins_splits_and_trims() {
    let value = Some(String::from(" https://a.example ,http://b.example,, \t "));
    let origins = extract_allowed_origins(&value);
    assert_eq!(origins.len(), 2);
    assert!(origins.contains(&String::from("https://a.example")));
    assert!(origins.contains(&String::from("http://b.example")));
}

#[test]
fn extract_origins_deduplicates() {
    let value = Some(String::from("http://x, http://x ,http://y"));
    let origins = extract_allowed_origins(&value);
    assert_eq!(origins.len(), 2);
}

#[test]
fn extract_origins_empty_inputs() {
    assert!(extract_allowed_origins(&None).is_empty());
    assert!(extract_allowed_origins(&Some(String::new())).is_empty());
    assert!(extract_allowed_origins(&Some(String::from(" , ,, "))).is_empty());
}

#[test]
fn origin_allowed_requires_scheme_and_membership() {
    let value = Some(String::from("http://ok.example,https://safe.example,ftp://files.example"));
    let allowed = extract_allowed_origins(&value);
    assert!(origin_allowed("http://ok.example", &allowed));
    assert!(origin_allowed("https://safe.example", &allowed));
    // In the list, but not an http(s) origin.
    assert!(!origin_allowed("ftp://files.example", &allowed));
    // An http(s) origin, but not in the list.
    assert!(!origin_allowed("http://other.example", &allowed));
    assert!(!origin_allowed("", &allowed));
}

#[test]
fn compare_secrets_both_sides_required() {
    let mut config = base_config();
    let header = String::from("shared-key");
    assert!(!compare_secrets(Some(&header), &config));
    config.secret_key = Some(String::from("shared-key"));
    assert!(compare_secrets(Some(&header), &config));
    assert!(!compare_secrets(None, &config));
    let wrong = String::from("not-it");
    assert!(!compare_secrets(Some(&wrong), &config));
}

#[test]
fn text_helpers() {
    assert!(str_eq("abc", "abc"));
    assert!(!str_eq("abc", "abd"));
    assert!(!str_eq("abc", "abcd"));
    assert_eq!(trim("  a b \t"), "a b");
    assert_eq!(trim("\r\n"), "");
    assert_eq!(trim("x"), "x");
    assert_eq!(trim("\u{a0}\u{2003}x\u{3000}"), "x");
    assert_eq!(trim("\u{a0}\u{2003}x\u{3000}"), "\u{a0}\u{2003}x\u{3000}".trim());
    assert!(starts_with("https://x", "https://"));
    assert!(!starts_with("http://x", "https://"));
    assert!(starts_with("anything", ""));
}
