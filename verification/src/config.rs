//! Process-wide configuration.
//!
//! A `Config` is built once at startup and read everywhere else.  The rate
//! limiter only looks at four of its fields: `max_events_per_second` and
//! `token_bucket_size` (whose product is the bucket capacity),
//! `max_ratelimit_entries` (the capacity bound that triggers eviction) and
//! `ratelimit_cache_entry_lifetime` (the staleness threshold in seconds).

use vstd::prelude::*;
use crate::text::str_eq;

verus! {

/// Immutable service configuration, supplied once at process start.
#[derive(Clone)]
pub struct Config {
    pub secret_key: Option<String>,
    pub max_events_per_second: u64,
    pub host: String,
    pub port: u16,
    pub max_ratelimit_entries: usize,
    pub ratelimiter_cleanup_interval: u64,
    pub ratelimit_cache_entry_lifetime: u64,
    pub create_session_cost: u64,
    pub ingest_event_cost: u64,
    pub token_bucket_size: u64,
    pub trust_proxy: u64,
    pub max_json_payload: usize,
    pub cors_origins: Option<String>,
    pub redis_connection_hostname: Option<String>,
    pub redis_connection_db: i64,
    pub redis_connection_port: u16,
    pub redis_connection_use_tls: bool,
    pub redis_connection_username: Option<String>,
    pub redis_connection_password: Option<String>,
    pub redis_connection_protocol: Option<String>,
}

/// The bucket capacity: tokens refill up to this count.
pub open spec fn spec_max_tokens(config: &Config) -> int {
    config.max_events_per_second * config.token_bucket_size
}

/// A configuration the limiter can run with: the bucket capacity is at least
/// one token (a zero capacity would admit nothing, so startup must refuse it)
/// and fits in a `u64`.
pub open spec fn valid_limiter_config(config: &Config) -> bool {
    1 <= spec_max_tokens(config) <= u64::MAX
}

/// Decides whether the limiter can run with `config`: the bucket capacity
/// `max_events_per_second * token_bucket_size` must be at least one token and
/// fit in a `u64`.  Startup must refuse a configuration for which this
/// returns `false`.
pub fn validate_limiter_config(config: &Config) -> (ok: bool)
    ensures
        ok == valid_limiter_config(config),
{
    if config.max_events_per_second == 0 || config.token_bucket_size == 0 {
        proof {
            assert(spec_max_tokens(config) == 0);
        }
        false
    } else {
        let ok = config.max_events_per_second <= u64::MAX / config.token_bucket_size;
        proof {
            let r = config.max_events_per_second as int;
            let b = config.token_bucket_size as int;
            let m = u64::MAX as int;
            assert(r <= m / b <==> r * b <= m) by (nonlinear_arith)
                requires
                    1 <= b,
                    0 <= r,
                    0 <= m,
            ;
            assert(r * b >= 1) by (nonlinear_arith)
                requires
                    1 <= r,
                    1 <= b,
            ;
        }
        ok
    }
}

/// How an optional textual flag reads as a boolean: the usual yes/no
/// spellings decide it, anything else (including absence and the empty
/// string) falls back to the given default.
pub open spec fn spec_parse_bool(input: Option<Seq<char>>, default_value: bool) -> bool {
    match input {
        Some(s) => {
            if s == ""@ {
                default_value
            } else if s == "true"@ || s == "True"@ || s == "TRUE"@ || s == "yes"@ || s == "y"@
                || s == "YES"@ || s == "Y"@ || s == "1"@ {
                true
            } else if s == "false"@ || s == "False"@ || s == "FALSE"@ || s == "no"@ || s == "n"@
                || s == "NO"@ || s == "N"@ || s == "0"@ {
                false
            } else {
                default_value
            }
        },
        None => default_value,
    }
}

/// Reads an optional textual flag as a boolean, as `spec_parse_bool` says.
pub fn parse_bool(input: Option<String>, default_value: bool) -> (r: bool)
    ensures
        r == spec_parse_bool(input.deep_view(), default_value),
{
    match input {
        None => default_value,
        Some(s) => {
            let t = s.as_str();
            if str_eq(t, "") {
                default_value
            } else if str_eq(t, "true") || str_eq(t, "True") || str_eq(t, "TRUE") || str_eq(
                t,
                "yes",
            ) || str_eq(t, "y") || str_eq(t, "YES") || str_eq(t, "Y") || str_eq(t, "1") {
                true
            } else if str_eq(t, "false") || str_eq(t, "False") || str_eq(t, "FALSE") || str_eq(
                t,
                "no",
            ) || str_eq(t, "n") || str_eq(t, "NO") || str_eq(t, "N") || str_eq(t, "0") {
                false
            } else {
                default_value
            }
        },
    }
}

/// The wire-protocol generations the cache connection can speak.
#[derive(Clone, Copy, Debug, PartialEq, Eq, Structural)]
pub enum RedisProtocol {
    Resp2,
    Resp3,
}

/// How the optional protocol setting reads: the two known spellings name
/// their protocol, absence means the newer generation, anything else is
/// invalid (`None`) and must stop startup.
pub open spec fn spec_parse_redis_protocol(protocol: Option<Seq<char>>) -> Option<RedisProtocol> {
    match protocol {
        Some(s) => {
            if s == "resp2"@ {
                Some(RedisProtocol::Resp2)
            } else if s == "resp3"@ {
                Some(RedisProtocol::Resp3)
            } else {
                None
            }
        },
        None => Some(RedisProtocol::Resp3),
    }
}

/// Reads the optional protocol setting, as `spec_parse_redis_protocol` says.
pub fn parse_redis_protocol(protocol: Option<String>) -> (r: Option<RedisProtocol>)
    ensures
        r == spec_parse_redis_protocol(protocol.deep_view()),
{
    match protocol {
        None => Some(RedisProtocol::Resp3),
        Some(s) => {
            let t = s.as_str();
            if str_eq(t, "resp2") {
                Some(RedisProtocol::Resp2)
            } else if str_eq(t, "resp3") {
                Some(RedisProtocol::Resp3)
            } else {
                None
            }
        },
    }
}

} // verus!
