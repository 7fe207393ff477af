//! The limiter's guarantees, stated and proved once and for all over the
//! specification-level model that `check_rate_limit` and
//! `cleanup_rate_limiter` are verified against.

use vstd::prelude::*;
use crate::config::{Config, spec_max_tokens, valid_limiter_config};
use crate::rate_limit::{
    RateLimitInfo, MILLIS_PER_SECOND, elapsed_millis, elapsed_whole_seconds, fresh_info, live,
    live_keys, spec_admit, spec_refill, sweep_post,
};

verus! {

/// The bucket after `n` admission checks of cost `cost`, all at instant
/// `now`, starting from `info`.
pub open spec fn admit_repeatedly(
    config: &Config,
    info: RateLimitInfo,
    cost: u64,
    now: u64,
    n: nat,
) -> RateLimitInfo
    decreases n,
{
    if n == 0 {
        info
    } else {
        spec_admit(config, admit_repeatedly(config, info, cost, now, (n - 1) as nat), cost, now).0
    }
}

/// Admission correctness: a fresh key with capacity `M` has its first `M`
/// unit-cost checks admitted when they all fall within the same instant (so
/// no refill intervenes), each one leaving one token fewer; once `M` checks
/// have drained the bucket, the next unit-cost check is denied.
pub proof fn lemma_admission_correctness(config: &Config, now: u64, n: nat)
    requires
        valid_limiter_config(config),
        n <= spec_max_tokens(config),
    ensures
        admit_repeatedly(config, fresh_info(config, now), 1, now, n).tokens == spec_max_tokens(
            config,
        ) - n,
        admit_repeatedly(config, fresh_info(config, now), 1, now, n).last_refill == now,
        forall|i: nat|
            i < n ==> (#[trigger] spec_admit(
                config,
                admit_repeatedly(config, fresh_info(config, now), 1, now, i),
                1,
                now,
            )).1,
        n == spec_max_tokens(config) ==> !spec_admit(
            config,
            admit_repeatedly(config, fresh_info(config, now), 1, now, n),
            1,
            now,
        ).1,
    decreases n,
{
    if n > 0 {
        lemma_admission_correctness(config, now, (n - 1) as nat);
    }
}

/// Refill correctness: once a bucket's clock has advanced by `k >= 1` whole
/// seconds since the last refill, the next refill adds `k` seconds' worth of
/// tokens, capped at the capacity, and a subsequent check is admitted
/// whenever its cost is within the refilled count.
pub proof fn lemma_refill_correctness(config: &Config, info: RateLimitInfo, k: u64, cost: u64, now: u64)
    requires
        valid_limiter_config(config),
        info.tokens <= spec_max_tokens(config),
        k >= 1,
        now as int == info.last_refill + k * (MILLIS_PER_SECOND as int),
    ensures
        ({
            let r = spec_refill(config, info, now);
            let replenished = info.tokens + k * config.max_events_per_second;
            &&& r.last_refill == now
            &&& r.last_access == info.last_access
            &&& r.tokens == if replenished >= spec_max_tokens(config) {
                spec_max_tokens(config)
            } else {
                replenished
            }
        }),
        cost <= spec_refill(config, info, now).tokens ==> spec_admit(config, info, cost, now).1,
{
    assert(k * (MILLIS_PER_SECOND as int) >= 1 * (MILLIS_PER_SECOND as int)) by (nonlinear_arith)
        requires
            k >= 1,
    ;
    assert(elapsed_whole_seconds(info.last_refill, now) == k) by {
        assert((k as int * 1000) / 1000 == k as int) by (nonlinear_arith);
    }
}

/// Quantized refill: under one whole second of elapsed clock, a check
/// triggers no refill at all, so a burst of sub-second checks can only spend
/// tokens, never gain them.
pub proof fn lemma_quantized_refill(config: &Config, info: RateLimitInfo, cost: u64, now: u64)
    requires
        elapsed_millis(info.last_refill, now) < MILLIS_PER_SECOND,
    ensures
        spec_refill(config, info, now) == info,
        spec_admit(config, info, cost, now).0.tokens <= info.tokens,
        spec_admit(config, info, cost, now).0.last_refill == info.last_refill,
{
}

/// Idempotent sweep: sweeping twice at the same instant with no intervening
/// activity removes nothing the second time.
pub proof fn lemma_sweep_idempotent(
    pre: Map<Seq<char>, RateLimitInfo>,
    mid: Map<Seq<char>, RateLimitInfo>,
    post: Map<Seq<char>, RateLimitInfo>,
    config: &Config,
    now: u64,
)
    requires
        sweep_post(pre, mid, config, now),
        sweep_post(mid, post, config, now),
    ensures
        post == mid,
{
    assert(live_keys(mid, config, now) =~= mid.dom());
    if live_keys(pre, config, now).len() <= config.max_ratelimit_entries {
        assert(mid.dom() == live_keys(pre, config, now));
        assert(live_keys(mid, config, now).len() <= config.max_ratelimit_entries);
    } else {
        assert(mid.dom().len() == config.max_ratelimit_entries);
    }
    assert(post.dom() == mid.dom());
    assert(post =~= mid);
}

/// Age eviction: an entry whose last access lies beyond the lifetime is gone
/// after the sweep.
pub proof fn lemma_age_eviction(
    pre: Map<Seq<char>, RateLimitInfo>,
    post: Map<Seq<char>, RateLimitInfo>,
    config: &Config,
    now: u64,
    k: Seq<char>,
)
    requires
        sweep_post(pre, post, config, now),
        pre.contains_key(k),
        !live(pre[k], config, now),
    ensures
        !post.contains_key(k),
{
}

/// The other half of age eviction: an entry accessed within the lifetime
/// survives the sweep untouched, as long as capacity eviction has no work to
/// do.
pub proof fn lemma_fresh_entry_survives(
    pre: Map<Seq<char>, RateLimitInfo>,
    post: Map<Seq<char>, RateLimitInfo>,
    config: &Config,
    now: u64,
    k: Seq<char>,
)
    requires
        sweep_post(pre, post, config, now),
        pre.contains_key(k),
        live(pre[k], config, now),
        live_keys(pre, config, now).len() <= config.max_ratelimit_entries,
    ensures
        post.contains_key(k),
        post[k] == pre[k],
{
    assert(live_keys(pre, config, now).contains(k));
}

/// Capacity eviction: when every tracked entry is within the lifetime but
/// more than `max_ratelimit_entries` clients are tracked, the sweep keeps
/// exactly `max_ratelimit_entries` of them, untouched, and no evicted entry
/// was accessed later than a surviving one.
pub proof fn lemma_capacity_eviction(
    pre: Map<Seq<char>, RateLimitInfo>,
    post: Map<Seq<char>, RateLimitInfo>,
    config: &Config,
    now: u64,
)
    requires
        sweep_post(pre, post, config, now),
        forall|k: Seq<char>| #[trigger] pre.contains_key(k) ==> live(pre[k], config, now),
        pre.dom().len() > config.max_ratelimit_entries,
    ensures
        post.dom().len() == config.max_ratelimit_entries,
        forall|k: Seq<char>| #[trigger] post.contains_key(k) ==> pre.contains_key(k) && post[k]
            == pre[k],
        forall|kr: Seq<char>, kk: Seq<char>| #![auto]
            pre.contains_key(kr) && !post.contains_key(kr) && post.contains_key(kk)
                ==> pre[kr].last_access <= pre[kk].last_access,
{
    assert(live_keys(pre, config, now) =~= pre.dom());
}

} // verus!