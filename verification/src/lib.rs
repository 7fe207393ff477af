//! Admission control for a small analytics-ingestion service.
//!
//! The heart of the crate is a per-client token-bucket rate limiter with
//! time-based and capacity-based eviction: every request spends a
//! caller-chosen number of tokens from a bucket kept per client key, buckets
//! refill in whole-second steps, and a periodic sweep prunes stale or excess
//! entries so the tracked-client map stays bounded.  The limiter is a plain
//! sequential structure; callers share it behind a lock of their choosing and
//! hand every operation the current time as a millisecond reading of a
//! monotonic clock.

pub mod api;
pub mod config;
pub mod laws;
pub mod origins;
pub mod rate_limit;
pub mod text;
