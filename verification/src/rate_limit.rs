//! Per-client token-bucket rate limiting with eviction.
//!
//! Every client key owns a `RateLimitInfo` bucket.  An admission check
//! refills the bucket in whole-second steps (at most up to the configured
//! capacity), stamps the access time, and then either spends the requested
//! cost and admits the request or leaves the tokens untouched and denies it.
//! A periodic sweep removes buckets that have not been touched within the
//! configured lifetime and, if the map still holds more than the configured
//! number of clients, evicts the least recently accessed buckets until the
//! bound is met.
//!
//! Time enters only as a parameter: a millisecond reading of a monotonic
//! clock, so the whole structure is a deterministic function of its inputs
//! and callers can drive it with a simulated clock.

use vstd::prelude::*;
use crate::config::{Config, spec_max_tokens, valid_limiter_config};
use crate::text::str_eq;

verus! {

/// Milliseconds per whole second of refill credit.
pub const MILLIS_PER_SECOND: u64 = 1000;

/// The bucket state tracked per client key.
#[derive(Clone, Copy, Debug)]
pub struct RateLimitInfo {
    /// Admission units currently available.
    pub tokens: u64,
    /// Millisecond timestamp of the last refill computation.
    pub last_refill: u64,
    /// Millisecond timestamp of the most recent admission check, admitted or
    /// denied; read only by the sweeper.
    pub last_access: u64,
}

/// Whole seconds elapsed between two millisecond timestamps; a reading that
/// runs backwards counts as no elapsed time.
pub open spec fn elapsed_whole_seconds(from: u64, to: u64) -> int {
    if to >= from {
        (to - from) / (MILLIS_PER_SECOND as int)
    } else {
        0
    }
}

/// Milliseconds elapsed between two millisecond timestamps; a reading that
/// runs backwards counts as no elapsed time.
pub open spec fn elapsed_millis(from: u64, to: u64) -> int {
    if to >= from {
        to - from
    } else {
        0
    }
}

/// The bucket a previously-unseen key starts with: a full bucket, both
/// timestamps at the current instant.
pub open spec fn fresh_info(config: &Config, now: u64) -> RateLimitInfo {
    RateLimitInfo {
        tokens: spec_max_tokens(config) as u64,
        last_refill: now,
        last_access: now,
    }
}

/// The refill step: once at least one whole second has elapsed since
/// `last_refill`, add one second's rate per elapsed whole second, capped at
/// the bucket capacity, and restart the elapsed-time measurement at `now`.
/// Under one whole second nothing changes: sub-second bursts earn no
/// partial refill.
pub open spec fn spec_refill(config: &Config, info: RateLimitInfo, now: u64) -> RateLimitInfo {
    let elapsed = elapsed_whole_seconds(info.last_refill, now);
    if elapsed >= 1 {
        let replenished = info.tokens + elapsed * config.max_events_per_second;
        let capped = if replenished >= spec_max_tokens(config) {
            spec_max_tokens(config)
        } else {
            replenished
        };
        RateLimitInfo { tokens: capped as u64, last_refill: now, last_access: info.last_access }
    } else {
        info
    }
}

/// The consume step: spend `cost` tokens and admit if the bucket holds at
/// least `cost`, otherwise deny and leave the tokens untouched.
pub open spec fn spec_try_consume(info: RateLimitInfo, cost: u64) -> (RateLimitInfo, bool) {
    if info.tokens >= cost {
        (
            RateLimitInfo {
                tokens: (info.tokens - cost) as u64,
                last_refill: info.last_refill,
                last_access: info.last_access,
            },
            true,
        )
    } else {
        (info, false)
    }
}

/// One whole admission check on a single bucket: refill, stamp the access
/// time, then try to consume.
pub open spec fn spec_admit(config: &Config, info: RateLimitInfo, cost: u64, now: u64) -> (
    RateLimitInfo,
    bool,
) {
    let refilled = spec_refill(config, info, now);
    let touched = RateLimitInfo {
        tokens: refilled.tokens,
        last_refill: refilled.last_refill,
        last_access: now,
    };
    spec_try_consume(touched, cost)
}

/// Executes the refill step.
pub fn refill(config: &Config, info: RateLimitInfo, now: u64) -> (r: RateLimitInfo)
    requires
        valid_limiter_config(config),
        info.tokens <= spec_max_tokens(config),
    ensures
        r == spec_refill(config, info, now),
{
    let max_tokens = config.max_events_per_second * config.token_bucket_size;
    let elapsed_ms = if now >= info.last_refill {
        now - info.last_refill
    } else {
        0
    };
    let elapsed = elapsed_ms / MILLIS_PER_SECOND;
    if elapsed >= 1 {
        let tokens = if elapsed >= config.token_bucket_size {
            proof {
                let e = elapsed as int;
                let rate = config.max_events_per_second as int;
                let size = config.token_bucket_size as int;
                assert(e * rate >= rate * size) by (nonlinear_arith)
                    requires
                        e >= size,
                        rate >= 0,
                ;
            }
            max_tokens
        } else {
            proof {
                let e = elapsed as int;
                let rate = config.max_events_per_second as int;
                let size = config.token_bucket_size as int;
                assert(rate >= 1 && size >= 1) by (nonlinear_arith)
                    requires
                        rate >= 0,
                        size >= 0,
                        rate * size >= 1,
                ;
                assert(0 <= e * rate && e * rate + rate <= rate * size) by (nonlinear_arith)
                    requires
                        0 <= e <= size - 1,
                        rate >= 1,
                ;
            }
            let credit = elapsed * config.max_events_per_second;
            if info.tokens >= max_tokens - credit {
                max_tokens
            } else {
                info.tokens + credit
            }
        };
        RateLimitInfo { tokens, last_refill: now, last_access: info.last_access }
    } else {
        info
    }
}

/// Executes the consume step.
pub fn try_consume(info: RateLimitInfo, cost: u64) -> (r: (RateLimitInfo, bool))
    ensures
        r == spec_try_consume(info, cost),
{
    if info.tokens >= cost {
        (
            RateLimitInfo {
                tokens: info.tokens - cost,
                last_refill: info.last_refill,
                last_access: info.last_access,
            },
            true,
        )
    } else {
        (info, false)
    }
}

/// An admission check never leaves a bucket holding more than the capacity,
/// whatever the cost and however the clock moved.
pub proof fn lemma_admit_bounded(config: &Config, info: RateLimitInfo, cost: u64, now: u64)
    requires
        valid_limiter_config(config),
        info.tokens <= spec_max_tokens(config),
    ensures
        spec_admit(config, info, cost, now).0.tokens <= spec_max_tokens(config),
{
    let elapsed = elapsed_whole_seconds(info.last_refill, now);
    if elapsed >= 1 {
        assert(elapsed * config.max_events_per_second >= 0) by (nonlinear_arith)
            requires
                elapsed >= 0,
                config.max_events_per_second >= 0,
        ;
    }
}

/// No two entries share a key.
pub open spec fn unique_keys(s: Seq<(String, RateLimitInfo)>) -> bool {
    forall|i: int, j: int| 0 <= i < j < s.len() ==> (#[trigger] s[i]).0@ != (#[trigger] s[j]).0@
}

/// The mapping an entry sequence denotes: later entries win, though under
/// `unique_keys` the order never matters.
pub open spec fn entries_map(s: Seq<(String, RateLimitInfo)>) -> Map<Seq<char>, RateLimitInfo>
    decreases s.len(),
{
    if s.len() == 0 {
        Map::empty()
    } else {
        entries_map(s.drop_last()).insert(s.last().0@, s.last().1)
    }
}

proof fn lemma_entries_map_unique(s: Seq<(String, RateLimitInfo)>)
    requires
        unique_keys(s),
    ensures
        entries_map(s).dom().finite(),
        entries_map(s).dom().len() == s.len(),
        forall|i: int|
            #![trigger s[i]]
            0 <= i < s.len() ==> entries_map(s).contains_key(s[i].0@) && entries_map(s)[s[i].0@]
                == s[i].1,
        forall|k: Seq<char>| #![auto]
            entries_map(s).contains_key(k) ==> exists|i: int|
                0 <= i < s.len() && (#[trigger] s[i]).0@ == k,
    decreases s.len(),
{
    if s.len() > 0 {
        let t = s.drop_last();
        assert(forall|i: int| 0 <= i < t.len() ==> t[i] == s[i]);
        lemma_entries_map_unique(t);
        if entries_map(t).contains_key(s.last().0@) {
            let i = choose|i: int| 0 <= i < t.len() && (#[trigger] t[i]).0@ == s.last().0@;
            assert(s[i].0@ == s[s.len() - 1].0@);
            assert(false);
        }
        assert forall|i: int| 0 <= i < s.len() implies entries_map(s).contains_key(
            (#[trigger] s[i]).0@,
        ) && entries_map(s)[s[i].0@] == s[i].1 by {
            if i < s.len() - 1 {
                assert(t[i] == s[i]);
                assert(s[i].0@ != s[s.len() - 1].0@);
            }
        }
    }
}

proof fn lemma_entries_map_push(s: Seq<(String, RateLimitInfo)>, p: (String, RateLimitInfo))
    ensures
        entries_map(s.push(p)) == entries_map(s).insert(p.0@, p.1),
{
    assert(s.push(p).drop_last() =~= s);
    assert(s.push(p).last() == p);
}

proof fn lemma_unique_push(s: Seq<(String, RateLimitInfo)>, p: (String, RateLimitInfo))
    requires
        unique_keys(s),
        forall|j: int| 0 <= j < s.len() ==> (#[trigger] s[j]).0@ != p.0@,
    ensures
        unique_keys(s.push(p)),
{
    let sp = s.push(p);
    assert forall|i: int, j: int| 0 <= i < j < sp.len() implies (#[trigger] sp[i]).0@
        != (#[trigger] sp[j]).0@ by {
        if j < s.len() {
            assert(sp[i] == s[i] && sp[j] == s[j]);
        } else {
            assert(sp[j] == p && sp[i] == s[i]);
        }
    }
}

proof fn lemma_entries_map_remove(s: Seq<(String, RateLimitInfo)>, i: int)
    requires
        unique_keys(s),
        0 <= i < s.len(),
    ensures
        unique_keys(s.remove(i)),
        forall|j: int|
            0 <= j < s.remove(i).len() ==> (#[trigger] s.remove(i)[j]).0@ != s[i].0@,
        entries_map(s.remove(i)) == entries_map(s).remove(s[i].0@),
{
    let r = s.remove(i);
    s.remove_ensures(i);
    assert forall|a: int, b: int| 0 <= a < b < r.len() implies (#[trigger] r[a]).0@
        != (#[trigger] r[b]).0@ by {
        let a0 = if a < i { a } else { a + 1 };
        let b0 = if b < i { b } else { b + 1 };
        assert(r[a] == s[a0] && r[b] == s[b0]);
    }
    assert forall|j: int| 0 <= j < r.len() implies (#[trigger] r[j]).0@ != s[i].0@ by {
        let j0 = if j < i { j } else { j + 1 };
        assert(r[j] == s[j0] && j0 != i);
    }
    lemma_entries_map_unique(s);
    lemma_entries_map_unique(r);
    assert forall|k: Seq<char>| #![auto]
        entries_map(r).contains_key(k) == entries_map(s).remove(s[i].0@).contains_key(k) by {
        if entries_map(r).contains_key(k) {
            let j = choose|j: int| 0 <= j < r.len() && (#[trigger] r[j]).0@ == k;
            let j0 = if j < i { j } else { j + 1 };
            assert(r[j] == s[j0]);
            assert(entries_map(s).contains_key(k) && k != s[i].0@);
        }
        if entries_map(s).remove(s[i].0@).contains_key(k) {
            let j0 = choose|j0: int| 0 <= j0 < s.len() && (#[trigger] s[j0]).0@ == k;
            assert(j0 != i);
            let j = if j0 < i { j0 } else { j0 - 1 };
            assert(r[j] == s[j0]);
            assert(entries_map(r).contains_key(k));
        }
    }
    assert forall|k: Seq<char>|
        #![auto]
        entries_map(r).contains_key(k) implies entries_map(r)[k] == entries_map(s).remove(
        s[i].0@,
    )[k] by {
        let j = choose|j: int| 0 <= j < r.len() && (#[trigger] r[j]).0@ == k;
        let j0 = if j < i { j } else { j + 1 };
        assert(r[j] == s[j0]);
        assert(entries_map(r)[k] == r[j].1);
        assert(entries_map(s)[k] == s[j0].1);
    }
    assert(entries_map(r) =~= entries_map(s).remove(s[i].0@));
}

/// The store: a mapping from client key to bucket state, held as an entry
/// list with pairwise-distinct keys.  All callers share one store behind one
/// exclusive lock; the operations below are meant to run inside it.
pub struct RateLimiter {
    entries: Vec<(String, RateLimitInfo)>,
}

impl View for RateLimiter {
    type V = Map<Seq<char>, RateLimitInfo>;

    closed spec fn view(&self) -> Map<Seq<char>, RateLimitInfo> {
        entries_map(self.entries@)
    }
}

/// Every tracked bucket holds at most the configured capacity.
pub open spec fn bounded_tokens(m: Map<Seq<char>, RateLimitInfo>, config: &Config) -> bool {
    forall|k: Seq<char>| #[trigger] m.contains_key(k) ==> m[k].tokens <= spec_max_tokens(config)
}

/// The bucket an admission check starts from: the tracked one, or a fresh
/// full bucket for a previously-unseen key.
pub open spec fn prior_info(
    m: Map<Seq<char>, RateLimitInfo>,
    config: &Config,
    key: Seq<char>,
    now: u64,
) -> RateLimitInfo {
    if m.contains_key(key) {
        m[key]
    } else {
        fresh_info(config, now)
    }
}

impl RateLimiter {
    /// Structural well-formedness: one entry per key.
    pub closed spec fn inv(&self) -> bool {
        unique_keys(self.entries@)
    }

    /// An empty store.
    pub fn new() -> (r: RateLimiter)
        ensures
            r.inv(),
            r@ == Map::<Seq<char>, RateLimitInfo>::empty(),
            r@.dom() =~= Set::<Seq<char>>::empty(),
    {
        RateLimiter { entries: Vec::new() }
    }

    /// How many clients are tracked.
    pub fn len(&self) -> (n: usize)
        requires
            self.inv(),
        ensures
            n == self@.dom().len(),
            self@.dom().finite(),
    {
        proof {
            lemma_entries_map_unique(self.entries@);
        }
        self.entries.len()
    }

    /// Looks up the tracked bucket for `key`, if any.
    pub fn get(&self, key: &str) -> (r: Option<RateLimitInfo>)
        requires
            self.inv(),
        ensures
            match r {
                Some(info) => self@.contains_key(key@) && info == self@[key@],
                None => !self@.contains_key(key@),
            },
    {
        proof {
            lemma_entries_map_unique(self.entries@);
        }
        let n = self.entries.len();
        let mut i: usize = 0;
        while i < n
            invariant
                0 <= i <= n,
                n == self.entries@.len(),
                self.inv(),
                forall|j: int| 0 <= j < i ==> (#[trigger] self.entries@[j]).0@ != key@,
            decreases n - i,
        {
            if str_eq(self.entries[i].0.as_str(), key) {
                proof {
                    lemma_entries_map_unique(self.entries@);
                }
                return Some(self.entries[i].1);
            }
            i += 1;
        }
        proof {
            if self@.contains_key(key@) {
                let j = choose|j: int|
                    0 <= j < self.entries@.len() && (#[trigger] self.entries@[j]).0@ == key@;
                assert(false);
            }
        }
        None
    }
}

/// The admission decision: refill the key's bucket for the elapsed whole
/// seconds, stamp its access time, and consume `cost` tokens if they are
/// there.  A previously-unseen key starts from a full bucket.  Admission is
/// denied exactly when the refilled bucket holds fewer than `cost` tokens;
/// no other key's bucket is touched.
pub fn check_rate_limit(
    limiter: &mut RateLimiter,
    config: &Config,
    ip: &str,
    cost: u64,
    now: u64,
) -> (admitted: bool)
    requires
        old(limiter).inv(),
        valid_limiter_config(config),
        bounded_tokens(old(limiter)@, config),
    ensures
        final(limiter).inv(),
        bounded_tokens(final(limiter)@, config),
        admitted == spec_admit(config, prior_info(old(limiter)@, config, ip@, now), cost, now).1,
        final(limiter)@ == old(limiter)@.insert(
            ip@,
            spec_admit(config, prior_info(old(limiter)@, config, ip@, now), cost, now).0,
        ),
        final(limiter)@.dom().finite(),
        forall|k: Seq<char>|
            k != ip@ ==> (final(limiter)@.contains_key(k) <==> old(limiter)@.contains_key(k)),
        forall|k: Seq<char>|
            k != ip@ && old(limiter)@.contains_key(k) ==> final(limiter)@[k] == old(limiter)@[k],
{
    let ghost s0 = limiter.entries@;
    let ghost m0 = limiter@;
    proof {
        lemma_entries_map_unique(s0);
    }
    let n = limiter.entries.len();
    let mut i: usize = 0;
    let mut idx: usize = n;
    while i < n
        invariant
            0 <= i <= n,
            idx <= n,
            limiter.entries@ == s0,
            n == s0.len(),
            idx == n ==> forall|j: int| 0 <= j < i ==> (#[trigger] s0[j]).0@ != ip@,
            idx < n ==> s0[idx as int].0@ == ip@,
        decreases n - i,
    {
        if idx == n {
            if str_eq(limiter.entries[i].0.as_str(), ip) {
                idx = i;
            }
        }
        i += 1;
    }
    let ghost prior_spec = prior_info(m0, config, ip@, now);
    let (key, prior) = if idx < n {
        proof {
            lemma_entries_map_remove(s0, idx as int);
        }
        let entry = limiter.entries.remove(idx);
        proof {
            assert(m0.contains_key(ip@));
            assert(entry.1 == m0[ip@]);
        }
        entry
    } else {
        proof {
            if m0.contains_key(ip@) {
                let j = choose|j: int| 0 <= j < s0.len() && (#[trigger] s0[j]).0@ == ip@;
                assert(false);
            }
        }
        let max_tokens = config.max_events_per_second * config.token_bucket_size;
        (ip.to_owned(), RateLimitInfo { tokens: max_tokens, last_refill: now, last_access: now })
    };
    let ghost s1 = limiter.entries@;
    let refilled = refill(config, prior, now);
    let touched = RateLimitInfo {
        tokens: refilled.tokens,
        last_refill: refilled.last_refill,
        last_access: now,
    };
    let (next, admitted) = try_consume(touched, cost);
    proof {
        assert(prior == prior_spec);
        assert((next, admitted) == spec_admit(config, prior_spec, cost, now));
    }
    limiter.entries.push((key, next));
    proof {
        lemma_entries_map_push(s1, (key, next));
        if idx < s0.len() {
            lemma_entries_map_remove(s0, idx as int);
            lemma_unique_push(s1, (key, next));
            assert(limiter@ =~= m0.insert(ip@, next));
        } else {
            assert(forall|j: int| 0 <= j < s1.len() ==> (#[trigger] s1[j]).0@ != ip@);
            lemma_unique_push(s1, (key, next));
            assert(limiter@ =~= m0.insert(ip@, next));
        }
        lemma_admit_bounded(config, prior_spec, cost, now);
        lemma_entries_map_unique(limiter.entries@);
        assert forall|k: Seq<char>| #[trigger] limiter@.contains_key(k) implies limiter@[k].tokens
            <= spec_max_tokens(config) by {
            if k != ip@ {
                assert(m0.contains_key(k));
            }
        }
    }
    admitted
}

/// A bucket still counts as active: its last admission check (admitted or
/// denied) lies within the configured entry lifetime.
pub open spec fn live(info: RateLimitInfo, config: &Config, now: u64) -> bool {
    elapsed_millis(info.last_access, now) <= config.ratelimit_cache_entry_lifetime * (
    MILLIS_PER_SECOND as int)
}

/// The keys of `m` whose buckets are still active.
pub open spec fn live_keys(
    m: Map<Seq<char>, RateLimitInfo>,
    config: &Config,
    now: u64,
) -> Set<Seq<char>> {
    m.dom().filter(|k: Seq<char>| live(m[k], config, now))
}

/// What one sweep does to the store, as a relation between the map before
/// (`pre`) and after (`post`): stale entries go; if the remaining count still
/// exceeds the capacity bound, least-recently-accessed entries go until
/// exactly the bound is left, never outliving a survivor that was accessed
/// earlier; every surviving bucket is untouched.
pub open spec fn sweep_post(
    pre: Map<Seq<char>, RateLimitInfo>,
    post: Map<Seq<char>, RateLimitInfo>,
    config: &Config,
    now: u64,
) -> bool {
    &&& forall|k: Seq<char>| #[trigger]
        post.contains_key(k) ==> pre.contains_key(k) && post[k] == pre[k] && live(
            pre[k],
            config,
            now,
        )
    &&& (live_keys(pre, config, now).len() <= config.max_ratelimit_entries ==> post.dom()
        == live_keys(pre, config, now))
    &&& (live_keys(pre, config, now).len() > config.max_ratelimit_entries ==> {
        &&& post.dom().len() == config.max_ratelimit_entries
        &&& forall|kr: Seq<char>, kk: Seq<char>| #![auto]
            live_keys(pre, config, now).contains(kr) && !post.contains_key(kr)
                && post.contains_key(kk) ==> pre[kr].last_access <= pre[kk].last_access
    })
}

/// Decides `live`.
pub fn is_live(info: RateLimitInfo, config: &Config, now: u64) -> (r: bool)
    ensures
        r == live(info, config, now),
{
    if now >= info.last_access {
        let elapsed = now - info.last_access;
        (elapsed as u128) <= (config.ratelimit_cache_entry_lifetime as u128) * (
        MILLIS_PER_SECOND as u128)
    } else {
        true
    }
}

/// The entries of `s` whose buckets are still active, in order.
spec fn live_entries(
    s: Seq<(String, RateLimitInfo)>,
    config: &Config,
    now: u64,
) -> Seq<(String, RateLimitInfo)>
    decreases s.len(),
{
    if s.len() == 0 {
        s
    } else {
        let rest = live_entries(s.drop_last(), config, now);
        if live(s.last().1, config, now) {
            rest.push(s.last())
        } else {
            rest
        }
    }
}

proof fn lemma_last_key_fresh(s: Seq<(String, RateLimitInfo)>)
    requires
        unique_keys(s),
        s.len() > 0,
    ensures
        unique_keys(s.drop_last()),
        !entries_map(s.drop_last()).contains_key(s.last().0@),
{
    let t = s.drop_last();
    assert(forall|i: int| 0 <= i < t.len() ==> t[i] == s[i]);
    lemma_entries_map_unique(t);
    if entries_map(t).contains_key(s.last().0@) {
        let i = choose|i: int| 0 <= i < t.len() && (#[trigger] t[i]).0@ == s.last().0@;
        assert(s[i].0@ == s[s.len() - 1].0@);
        assert(false);
    }
}

proof fn lemma_live_entries(s: Seq<(String, RateLimitInfo)>, config: &Config, now: u64)
    requires
        unique_keys(s),
    ensures
        unique_keys(live_entries(s, config, now)),
        entries_map(live_entries(s, config, now)).dom() == live_keys(
            entries_map(s),
            config,
            now,
        ),
        forall|k: Seq<char>| #[trigger]
            entries_map(live_entries(s, config, now)).contains_key(k) ==> entries_map(
                s,
            ).contains_key(k) && entries_map(live_entries(s, config, now))[k] == entries_map(s)[k],
    decreases s.len(),
{
    let l = live_entries(s, config, now);
    let m = entries_map(s);
    if s.len() == 0 {
        assert(entries_map(l).dom() =~= live_keys(m, config, now));
    } else {
        let t = s.drop_last();
        let k = s.last().0@;
        let v = s.last().1;
        lemma_last_key_fresh(s);
        lemma_live_entries(t, config, now);
        let lt = live_entries(t, config, now);
        let mt = entries_map(t);
        lemma_entries_map_unique(t);
        lemma_entries_map_unique(lt);
        assert forall|j: int| 0 <= j < lt.len() implies (#[trigger] lt[j]).0@ != k by {
            assert(entries_map(lt).contains_key(lt[j].0@));
            assert(mt.contains_key(lt[j].0@));
        }
        if live(v, config, now) {
            lemma_unique_push(lt, s.last());
            lemma_entries_map_push(lt, s.last());
            assert(l == lt.push(s.last()));
            assert(entries_map(l).dom() =~= live_keys(m, config, now));
        } else {
            assert(l == lt);
            assert forall|x: Seq<char>|
                entries_map(l).dom().contains(x) == live_keys(m, config, now).contains(x) by {
                if x != k {
                    assert(m.contains_key(x) == mt.contains_key(x));
                    assert(m.contains_key(x) ==> m[x] == mt[x]);
                }
            }
            assert(entries_map(l).dom() =~= live_keys(m, config, now));
        }
    }
}

/// One sweep of the store: drop every entry whose last admission check lies
/// further back than the configured lifetime, then, if more than
/// `max_ratelimit_entries` clients are still tracked, drop the least recently
/// accessed entries until exactly that many are left.  Surviving buckets are
/// not changed, and a sweep with nothing to do changes nothing.
pub fn cleanup_rate_limiter(limiter: &mut RateLimiter, config: &Config, now: u64)
    requires
        old(limiter).inv(),
    ensures
        final(limiter).inv(),
        final(limiter)@.dom().finite(),
        sweep_post(old(limiter)@, final(limiter)@, config, now),
        bounded_tokens(old(limiter)@, config) ==> bounded_tokens(final(limiter)@, config),
{
    let ghost s0 = limiter.entries@;
    let ghost m0 = limiter@;
    let mut kept: Vec<(String, RateLimitInfo)> = Vec::new();
    let n = limiter.entries.len();
    let mut i: usize = 0;
    while i < n
        invariant
            0 <= i <= n,
            limiter.entries@ == s0,
            n == s0.len(),
            kept@ == live_entries(s0.take(i as int), config, now),
        decreases n - i,
    {
        proof {
            assert(s0.take(i + 1).drop_last() =~= s0.take(i as int));
            assert(s0.take(i + 1).last() == s0[i as int]);
        }
        let info = limiter.entries[i].1;
        if is_live(info, config, now) {
            let key = limiter.entries[i].0.clone();
            kept.push((key, info));
            proof {
                assert((key, info) == s0[i as int]);
            }
        }
        i += 1;
    }
    proof {
        assert(s0.take(n as int) =~= s0);
        lemma_live_entries(s0, config, now);
    }
    *limiter = RateLimiter { entries: kept };
    let ghost m1 = limiter@;
    proof {
        lemma_entries_map_unique(limiter.entries@);
        assert(m1.dom() == live_keys(m0, config, now));
        assert(m1.dom().len() == limiter.entries@.len());
    }
    if limiter.entries.len() > config.max_ratelimit_entries {
        while limiter.entries.len() > config.max_ratelimit_entries
            invariant
                limiter.inv(),
                limiter@.dom().len() == limiter.entries@.len(),
                limiter@.dom().finite(),
                limiter.entries@.len() >= config.max_ratelimit_entries,
                forall|k: Seq<char>| #[trigger]
                    limiter@.contains_key(k) ==> m1.contains_key(k) && limiter@[k] == m1[k],
                forall|kr: Seq<char>, kk: Seq<char>| #![auto]
                    m1.contains_key(kr) && !limiter@.contains_key(kr) && limiter@.contains_key(kk)
                        ==> m1[kr].last_access <= m1[kk].last_access,
            decreases limiter.entries@.len(),
        {
            let ghost mc = limiter@;
            let ghost cur = limiter.entries@;
            let m = limiter.entries.len();
            let mut best: usize = 0;
            let mut j: usize = 1;
            while j < m
                invariant
                    0 <= best < j <= m,
                    limiter.entries@ == cur,
                    m == cur.len(),
                    forall|t: int|
                        0 <= t < j ==> (#[trigger] cur[t]).1.last_access
                            >= cur[best as int].1.last_access,
                decreases m - j,
            {
                if limiter.entries[j].1.last_access < limiter.entries[best].1.last_access {
                    best = j;
                }
                j += 1;
            }
            proof {
                lemma_entries_map_unique(cur);
                lemma_entries_map_remove(cur, best as int);
            }
            let ghost kb = cur[best as int].0@;
            limiter.entries.remove(best);
            proof {
                lemma_entries_map_unique(limiter.entries@);
                assert(limiter@ == mc.remove(kb));
                assert(mc.contains_key(kb) && mc[kb] == cur[best as int].1);
                assert forall|kr: Seq<char>, kk: Seq<char>| #![auto]
                    m1.contains_key(kr) && !limiter@.contains_key(kr) && limiter@.contains_key(
                    kk,
                ) implies m1[kr].last_access <= m1[kk].last_access by {
                    if mc.contains_key(kr) {
                        assert(kr == kb);
                        let t = choose|t: int|
                            0 <= t < limiter.entries@.len() && (#[trigger] limiter.entries@[t]).0@
                                == kk;
                        let t0 = if t < best as int {
                            t
                        } else {
                            t + 1
                        };
                        assert(limiter.entries@[t] == cur[t0]);
                        assert(m1[kk] == mc[kk] && mc[kk] == cur[t0].1);
                        assert(cur[t0].1.last_access >= cur[best as int].1.last_access);
                        assert(m1[kr] == mc[kb]);
                    } else {
                        assert(mc.contains_key(kk));
                    }
                }
            }
        }
    }
    proof {
        assert forall|k: Seq<char>| #[trigger] final(limiter)@.contains_key(k) implies m0
            .contains_key(k) && final(limiter)@[k] == m0[k] && live(m0[k], config, now) by {
            assert(m1.contains_key(k) && final(limiter)@[k] == m1[k]);
            assert(m1.dom().contains(k));
            assert(live_keys(m0, config, now).contains(k));
        }
        if live_keys(m0, config, now).len() <= config.max_ratelimit_entries {
            assert(final(limiter)@.dom() == m1.dom());
        }
    }
}

} // verus!
