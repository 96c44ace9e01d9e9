//! In-memory token-bucket rate limiting per client address, with a penalty box that
//! blocks an address outright for a fixed time.

use std::time::{Duration, Instant};
use vstd::prelude::*;
use crate::clock::{duration_as_nanos, duration_total_nanos, instant_now, max_duration_nanos, nanos_since};
use crate::keyed::KeyedStore;
use crate::text::{chars_of, find_char_from, first_index_of, slice_chars, string_from_chars, trim_chars, trim_ws};

verus! {

/// Outcome of a rate-limit check.
#[derive(Clone, Debug, PartialEq, Eq, Structural)]
pub enum RateLimitResult {
    Allowed,
    Blocked { retry_after_secs: u64 },
}

impl RateLimitResult {
    /// Blocked, with a retry delay of at least one second.
    pub open spec fn retry_after_secs_at_least_one(self) -> bool {
        match self {
            RateLimitResult::Blocked { retry_after_secs } => retry_after_secs >= 1,
            RateLimitResult::Allowed => false,
        }
    }
}

/// Token bucket of one client: the time of its last refill (nanoseconds on the
/// limiter's clock) and the tokens left in the current window.
#[derive(Clone, Copy)]
pub struct RateBucketState {
    pub last_reset: u128,
    pub tokens_remaining: u32,
}

/// Nanoseconds a client stays in the penalty box.
pub open spec fn penalty_nanos() -> u128 {
    60_000_000_000
}

/// When a penalty taken at `now` expires.
pub open spec fn penalty_expiry(now: u128) -> u128 {
    (now + penalty_nanos()) as u128
}

/// Whole seconds in a span of nanoseconds.
pub open spec fn whole_secs(nanos: u128) -> u64 {
    (nanos / 1_000_000_000) as u64
}

/// Time from `earlier` to `now`, or zero when `now` is earlier.
pub open spec fn elapsed_between(earlier: u128, now: u128) -> u128 {
    if now >= earlier {
        (now - earlier) as u128
    } else {
        0
    }
}

/// Whether `ip` sits in the penalty box at `now`.
pub open spec fn penalized(penalties: Map<Seq<char>, u128>, ip: Seq<char>, now: u128) -> bool {
    penalties.contains_key(ip) && penalties[ip] > now
}

/// The penalty box after an expired entry for `ip` has been cleared at `now`.
pub open spec fn clear_expired(penalties: Map<Seq<char>, u128>, ip: Seq<char>, now: u128) -> Map<
    Seq<char>,
    u128,
> {
    if penalties.contains_key(ip) && penalties[ip] <= now {
        penalties.remove(ip)
    } else {
        penalties
    }
}

/// The bucket of `ip` as seen at `now`: a new full bucket when there is none, and a
/// refilled one once a whole window has passed since its last refill.
pub open spec fn refreshed_bucket(
    buckets: Map<Seq<char>, RateBucketState>,
    ip: Seq<char>,
    now: u128,
    max_tokens: u32,
    window: u128,
) -> RateBucketState {
    let b = if buckets.contains_key(ip) {
        buckets[ip]
    } else {
        RateBucketState { last_reset: now, tokens_remaining: max_tokens }
    };
    if elapsed_between(b.last_reset, now) >= window {
        RateBucketState { last_reset: now, tokens_remaining: max_tokens }
    } else {
        b
    }
}

/// Taking a token from bucket `b` at `now`: allowed while tokens remain; otherwise
/// blocked until the window ends, reported in whole seconds and at least one.
pub open spec fn take_token(b: RateBucketState, now: u128, window: u128) -> (
    RateLimitResult,
    RateBucketState,
) {
    if b.tokens_remaining > 0 {
        (
            RateLimitResult::Allowed,
            RateBucketState { last_reset: b.last_reset, tokens_remaining: (b.tokens_remaining - 1) as u32 },
        )
    } else {
        let e = elapsed_between(b.last_reset, now);
        let left: u128 = if window >= e {
            (window - e) as u128
        } else {
            0
        };
        let secs = whole_secs(left);
        (RateLimitResult::Blocked { retry_after_secs: if secs >= 1 { secs } else { 1 } }, b)
    }
}

/// One check of `ip` at `now`: the result, the buckets after it and the penalty box
/// after it. A client in the penalty box is blocked until its entry expires and
/// nothing changes; otherwise an expired entry is cleared and a token is taken.
pub open spec fn check_outcome(
    buckets: Map<Seq<char>, RateBucketState>,
    penalties: Map<Seq<char>, u128>,
    ip: Seq<char>,
    now: u128,
    max_tokens: u32,
    window: u128,
) -> (RateLimitResult, Map<Seq<char>, RateBucketState>, Map<Seq<char>, u128>) {
    if penalized(penalties, ip, now) {
        (
            RateLimitResult::Blocked {
                retry_after_secs: whole_secs((penalties[ip] - now) as u128),
            },
            buckets,
            penalties,
        )
    } else {
        let b = refreshed_bucket(buckets, ip, now, max_tokens, window);
        let (r, b2) = take_token(b, now, window);
        (r, buckets.insert(ip, b2), clear_expired(penalties, ip, now))
    }
}

/// Checks of `ip` at each of `times` in turn: the results, then the final buckets
/// and penalty box.
pub open spec fn run_checks(
    buckets: Map<Seq<char>, RateBucketState>,
    penalties: Map<Seq<char>, u128>,
    ip: Seq<char>,
    times: Seq<u128>,
    max_tokens: u32,
    window: u128,
) -> (Seq<RateLimitResult>, Map<Seq<char>, RateBucketState>, Map<Seq<char>, u128>)
    decreases times.len(),
{
    if times.len() == 0 {
        (Seq::empty(), buckets, penalties)
    } else {
        let prev = run_checks(buckets, penalties, ip, times.drop_last(), max_tokens, window);
        let step = check_outcome(prev.1, prev.2, ip, times.last(), max_tokens, window);
        (prev.0.push(step.0), step.1, step.2)
    }
}

/// A client put in the penalty box at `t` is blocked at every later time before the
/// penalty expires, with the whole seconds left as the retry delay, and the check
/// changes nothing.
pub proof fn law_penalty_blocks(
    buckets: Map<Seq<char>, RateBucketState>,
    penalties: Map<Seq<char>, u128>,
    ip: Seq<char>,
    t: u128,
    later: u128,
    max_tokens: u32,
    window: u128,
)
    requires
        t <= max_duration_nanos(),
        t <= later < penalty_expiry(t),
    ensures
        check_outcome(
            buckets,
            penalties.insert(ip, penalty_expiry(t)),
            ip,
            later,
            max_tokens,
            window,
        ) == (
            RateLimitResult::Blocked {
                retry_after_secs: whole_secs((penalty_expiry(t) - later) as u128),
            },
            buckets,
            penalties.insert(ip, penalty_expiry(t)),
        ),
{
}

/// A client whose bucket was last refilled at `t0` and holds `k` tokens, outside the
/// penalty box, has exactly its first `k` requests allowed among those it sends before
/// `t0` plus one window; every later one is blocked with a retry delay of at least one
/// second, and the bucket keeps its refill time.
pub proof fn law_bucket_allows_remaining_tokens(
    buckets: Map<Seq<char>, RateBucketState>,
    penalties: Map<Seq<char>, u128>,
    ip: Seq<char>,
    times: Seq<u128>,
    max_tokens: u32,
    window: u128,
)
    requires
        buckets.contains_key(ip),
        !penalties.contains_key(ip),
        forall|i: int, j: int| 0 <= i <= j < times.len() ==> times[i] <= times[j],
        forall|i: int|
            0 <= i < times.len() ==> buckets[ip].last_reset <= #[trigger] times[i]
                < buckets[ip].last_reset + window,
    ensures
        ({
            let out = run_checks(buckets, penalties, ip, times, max_tokens, window);
            let k = buckets[ip].tokens_remaining;
            &&& out.0.len() == times.len()
            &&& out.2 == penalties
            &&& out.1.contains_key(ip)
            &&& out.1[ip] == RateBucketState {
                last_reset: buckets[ip].last_reset,
                tokens_remaining: (if times.len() < k {
                    k - times.len()
                } else {
                    0
                }) as u32,
            }
            &&& forall|i: int|
                0 <= i < times.len() ==> (out.0[i] == RateLimitResult::Allowed <==> i < k)
            &&& forall|i: int|
                0 <= i < times.len() && i >= k ==> out.0[i].retry_after_secs_at_least_one()
        }),
    decreases times.len(),
{
    if times.len() > 0 {
        let init = times.drop_last();
        assert forall|i: int, j: int| 0 <= i <= j < init.len() implies init[i] <= init[j] by {
            assert(init[i] == times[i] && init[j] == times[j]);
        }
        assert forall|i: int| 0 <= i < init.len() implies buckets[ip].last_reset <= #[trigger] init[i]
            < buckets[ip].last_reset + window by {
            assert(init[i] == times[i]);
        }
        law_bucket_allows_remaining_tokens(buckets, penalties, ip, init, max_tokens, window);
        let prev = run_checks(buckets, penalties, ip, init, max_tokens, window);
        let t = times.last();
        assert(buckets[ip].last_reset <= t < buckets[ip].last_reset + window);
        assert(!penalized(prev.2, ip, t));
        let out = run_checks(buckets, penalties, ip, times, max_tokens, window);
        assert(out.2 =~= penalties);
    }
}

/// A client outside the penalty box whose bucket was last refilled a whole window or
/// more ago is allowed, and its bucket restarts now with one token fewer than the
/// maximum.
pub proof fn law_refill_after_window(
    buckets: Map<Seq<char>, RateBucketState>,
    penalties: Map<Seq<char>, u128>,
    ip: Seq<char>,
    now: u128,
    max_tokens: u32,
    window: u128,
)
    requires
        buckets.contains_key(ip),
        !penalized(penalties, ip, now),
        buckets[ip].last_reset <= now,
        now - buckets[ip].last_reset >= window,
        max_tokens >= 1,
    ensures
        check_outcome(buckets, penalties, ip, now, max_tokens, window).0 == RateLimitResult::Allowed,
        check_outcome(buckets, penalties, ip, now, max_tokens, window).1[ip] == (RateBucketState {
            last_reset: now,
            tokens_remaining: (max_tokens - 1) as u32,
        }),
{
}

/// A client without a bucket and outside the penalty box that sends requests within
/// one window of its first request gets exactly `max_tokens` of them allowed: the
/// first `max_tokens`, while every later one is blocked with a retry delay of at
/// least one second.
pub proof fn law_window_allows_max_tokens(
    buckets: Map<Seq<char>, RateBucketState>,
    penalties: Map<Seq<char>, u128>,
    ip: Seq<char>,
    times: Seq<u128>,
    max_tokens: u32,
    window: u128,
)
    requires
        !buckets.contains_key(ip),
        !penalties.contains_key(ip),
        forall|i: int, j: int| 0 <= i <= j < times.len() ==> times[i] <= times[j],
        forall|i: int| 0 <= i < times.len() ==> #[trigger] times[i] < times[0] + window,
    ensures
        forall|i: int|
            0 <= i < times.len() ==> (#[trigger] run_checks(
                buckets,
                penalties,
                ip,
                times,
                max_tokens,
                window,
            ).0[i] == RateLimitResult::Allowed <==> i < max_tokens),
        forall|i: int|
            0 <= i < times.len() && i >= max_tokens ==> (#[trigger] run_checks(
                buckets,
                penalties,
                ip,
                times,
                max_tokens,
                window,
            ).0[i]).retry_after_secs_at_least_one(),
{
    lemma_window_run(buckets, penalties, ip, times, max_tokens, window);
}

proof fn lemma_window_run(
    buckets: Map<Seq<char>, RateBucketState>,
    penalties: Map<Seq<char>, u128>,
    ip: Seq<char>,
    times: Seq<u128>,
    max_tokens: u32,
    window: u128,
)
    requires
        !buckets.contains_key(ip),
        !penalties.contains_key(ip),
        forall|i: int, j: int| 0 <= i <= j < times.len() ==> times[i] <= times[j],
        forall|i: int| 0 <= i < times.len() ==> #[trigger] times[i] < times[0] + window,
    ensures
        ({
            let out = run_checks(buckets, penalties, ip, times, max_tokens, window);
            &&& out.0.len() == times.len()
            &&& out.2 == penalties
            &&& times.len() > 0 ==> out.1.contains_key(ip) && out.1[ip] == RateBucketState {
                last_reset: times[0],
                tokens_remaining: (if times.len() < max_tokens {
                    max_tokens - times.len()
                } else {
                    0
                }) as u32,
            }
            &&& forall|i: int|
                0 <= i < times.len() ==> (out.0[i] == RateLimitResult::Allowed <==> i < max_tokens)
            &&& forall|i: int|
                0 <= i < times.len() && i >= max_tokens ==> out.0[i].retry_after_secs_at_least_one()
        }),
    decreases times.len(),
{
    if times.len() > 0 {
        let init = times.drop_last();
        assert forall|i: int, j: int| 0 <= i <= j < init.len() implies init[i] <= init[j] by {
            assert(init[i] == times[i] && init[j] == times[j]);
        }
        if init.len() > 0 {
            assert(init[0] == times[0]);
        }
        assert forall|i: int| 0 <= i < init.len() implies #[trigger] init[i] < init[0] + window by {
            assert(init[i] == times[i]);
            assert(times[i] < times[0] + window);
        }
        lemma_window_run(buckets, penalties, ip, init, max_tokens, window);
        let prev = run_checks(buckets, penalties, ip, init, max_tokens, window);
        let t = times.last();
        assert(times[0] <= t);
        assert(t < times[0] + window);
        assert(!penalized(prev.2, ip, t));
        let b = refreshed_bucket(prev.1, ip, t, max_tokens, window);
        if init.len() == 0 {
            assert(b == RateBucketState { last_reset: t, tokens_remaining: max_tokens });
        } else {
            assert(b == prev.1[ip]);
        }
        let out = run_checks(buckets, penalties, ip, times, max_tokens, window);
        assert(out.2 =~= penalties);
    }
}

/// The client address a request is counted under: the first entry of
/// `x-forwarded-for`, trimmed, when that header is present (the loopback address
/// when its value is not text); otherwise `x-real-ip`, trimmed; otherwise the
/// loopback address. Each argument is `None` when the header is absent and
/// `Some(None)` when its value is not visible ASCII text.
pub open spec fn client_ip_for(
    forwarded_for: Option<Option<Seq<char>>>,
    real_ip: Option<Option<Seq<char>>>,
) -> Seq<char> {
    match forwarded_for {
        Some(Some(v)) => trim_ws(v.subrange(0, first_index_of(v, ','))),
        Some(None) => "127.0.0.1"@,
        None => match real_ip {
            Some(Some(v)) => trim_ws(v),
            _ => "127.0.0.1"@,
        },
    }
}

/// A header value taken by its characters.
pub open spec fn header_view(h: Option<Option<&str>>) -> Option<Option<Seq<char>>> {
    match h {
        Some(Some(v)) => Some(Some(v@)),
        Some(None) => Some(None),
        None => None,
    }
}

/// The client address for a request, from its `x-forwarded-for` and `x-real-ip`
/// headers (see `client_ip_for`).
pub fn client_ip_from_headers(forwarded_for: Option<Option<&str>>, real_ip: Option<Option<&str>>) -> (ip: String)
    ensures
        ip@ == client_ip_for(header_view(forwarded_for), header_view(real_ip)),
{
    match forwarded_for {
        Some(Some(v)) => {
            let chars = chars_of(v);
            let end = find_char_from(&chars, 0, ',');
            assert(chars@.subrange(0, chars@.len() as int) =~= chars@);
            let first = slice_chars(&chars, 0, end);
            string_from_chars(&trim_chars(&first))
        },
        Some(None) => "127.0.0.1".to_owned(),
        None => match real_ip {
            Some(Some(v)) => string_from_chars(&trim_chars(&chars_of(v))),
            _ => "127.0.0.1".to_owned(),
        },
    }
}

/// A check touches only the checked client's entries: every other client's bucket
/// and penalty stay as they were.
pub proof fn law_clients_independent(
    buckets: Map<Seq<char>, RateBucketState>,
    penalties: Map<Seq<char>, u128>,
    ip: Seq<char>,
    now: u128,
    max_tokens: u32,
    window: u128,
)
    ensures
        check_outcome(buckets, penalties, ip, now, max_tokens, window).1.remove(ip)
            == buckets.remove(ip),
        check_outcome(buckets, penalties, ip, now, max_tokens, window).2.remove(ip)
            == penalties.remove(ip),
{
    let out = check_outcome(buckets, penalties, ip, now, max_tokens, window);
    assert(out.1.remove(ip) =~= buckets.remove(ip));
    assert(out.2.remove(ip) =~= penalties.remove(ip));
}

/// A check's result depends only on the checked client's own bucket and penalty:
/// two limiters that agree on them answer alike.
pub proof fn law_result_depends_on_own_entries(
    buckets1: Map<Seq<char>, RateBucketState>,
    penalties1: Map<Seq<char>, u128>,
    buckets2: Map<Seq<char>, RateBucketState>,
    penalties2: Map<Seq<char>, u128>,
    ip: Seq<char>,
    now: u128,
    max_tokens: u32,
    window: u128,
)
    requires
        buckets1.contains_key(ip) == buckets2.contains_key(ip),
        buckets1.contains_key(ip) ==> buckets1[ip] == buckets2[ip],
        penalties1.contains_key(ip) == penalties2.contains_key(ip),
        penalties1.contains_key(ip) ==> penalties1[ip] == penalties2[ip],
    ensures
        check_outcome(buckets1, penalties1, ip, now, max_tokens, window).0 == check_outcome(
            buckets2,
            penalties2,
            ip,
            now,
            max_tokens,
            window,
        ).0,
        check_outcome(buckets1, penalties1, ip, now, max_tokens, window).1[ip] == check_outcome(
            buckets2,
            penalties2,
            ip,
            now,
            max_tokens,
            window,
        ).1[ip] || penalized(penalties1, ip, now),
{
}

/// A blocked client is told to retry after at least one second and at most the
/// window (whole seconds, but one for a window under a second); a penalized one after
/// at most the penalty's minute.
pub proof fn law_retry_bounds(
    buckets: Map<Seq<char>, RateBucketState>,
    penalties: Map<Seq<char>, u128>,
    ip: Seq<char>,
    now: u128,
    max_tokens: u32,
    window: u128,
)
    requires
        penalties.contains_key(ip) ==> penalties[ip] <= now + penalty_nanos(),
        window <= max_duration_nanos(),
    ensures
        check_outcome(buckets, penalties, ip, now, max_tokens, window).0 matches RateLimitResult::Blocked { retry_after_secs }
            ==> if penalized(penalties, ip, now) {
            retry_after_secs <= 60
        } else {
            1 <= retry_after_secs && (retry_after_secs <= whole_secs(window) || retry_after_secs == 1)
        },
{
    if !penalized(penalties, ip, now) {
        let b = refreshed_bucket(buckets, ip, now, max_tokens, window);
        let e = elapsed_between(b.last_reset, now);
        let left: u128 = if window >= e {
            (window - e) as u128
        } else {
            0
        };
        assert(left <= window);
        assert(left / 1_000_000_000 <= window / 1_000_000_000) by (nonlinear_arith)
            requires
                left <= window,
        ;
        assert(window / 1_000_000_000 <= u64::MAX) by (nonlinear_arith)
            requires
                window <= 18446744073709551615999999999u128,
        ;
        assert(whole_secs(left) as int == left / 1_000_000_000);
        assert(whole_secs(window) as int == window / 1_000_000_000);
    } else {
        let d = (penalties[ip] - now) as u128;
        assert(d <= 60_000_000_000);
        assert(d / 1_000_000_000 <= 60) by (nonlinear_arith)
            requires
                d <= 60_000_000_000,
        ;
    }
}

/// Per-client rate limiter: at most `max_tokens` requests per window for each client
/// address, and a one-minute penalty box.
pub struct RateLimiter {
    state: KeyedStore<RateBucketState>,
    max_tokens: u32,
    refill_interval: u128,
    penalty_box: KeyedStore<u128>,
    penalty_duration: u128,
    clock_origin: Instant,
    last_reading: u128,
}

impl RateLimiter {
    /// The tables are well formed.
    #[verifier::type_invariant]
    spec fn wf(&self) -> bool {
        &&& self.state.wf()
        &&& self.penalty_box.wf()
        &&& self.penalty_duration == penalty_nanos()
        &&& self.refill_interval <= max_duration_nanos()
        &&& self.last_reading <= max_duration_nanos()
    }

    /// Buckets by client address.
    pub closed spec fn buckets(&self) -> Map<Seq<char>, RateBucketState> {
        self.state.view_map()
    }

    /// Penalty expiry times by client address.
    pub closed spec fn penalties(&self) -> Map<Seq<char>, u128> {
        self.penalty_box.view_map()
    }

    /// Requests allowed per window.
    pub closed spec fn max_tokens(&self) -> u32 {
        self.max_tokens
    }

    /// Length of a window in nanoseconds.
    pub closed spec fn window_nanos(&self) -> u128 {
        self.refill_interval
    }

    /// The latest clock reading the limiter has used, in nanoseconds since it was
    /// created; readings never go backwards.
    pub closed spec fn clock(&self) -> u128 {
        self.last_reading
    }

    /// Creates a limiter allowing `max_requests_per_window` requests per `window`.
    pub fn new(max_requests_per_window: u32, window: Duration) -> (limiter: Self)
        ensures
            limiter.buckets() == Map::<Seq<char>, RateBucketState>::empty(),
            limiter.penalties() == Map::<Seq<char>, u128>::empty(),
            limiter.max_tokens() == max_requests_per_window,
            limiter.window_nanos() == duration_total_nanos(window),
            limiter.clock() == 0,
    {
        let refill_interval = duration_as_nanos(window);
        RateLimiter {
            state: KeyedStore::new(),
            max_tokens: max_requests_per_window,
            refill_interval,
            penalty_box: KeyedStore::new(),
            penalty_duration: 60_000_000_000,
            clock_origin: instant_now(),
            last_reading: 0,
        }
    }

    /// Stores `bucket` for `ip`.
    fn store_bucket(&mut self, ip: &str, bucket: RateBucketState)
        ensures
            final(self).buckets() == old(self).buckets().insert(ip@, bucket),
            final(self).penalties() == old(self).penalties(),
            final(self).max_tokens() == old(self).max_tokens(),
            final(self).window_nanos() == old(self).window_nanos(),
            final(self).penalty_duration == old(self).penalty_duration,
            final(self).last_reading == old(self).last_reading,
    {
        proof {
            use_type_invariant(&*self);
        }
        let mut table = KeyedStore::new();
        std::mem::swap(&mut table, &mut self.state);
        table.insert(ip, bucket);
        std::mem::swap(&mut table, &mut self.state);
    }

    /// Records that `ip` stays in the penalty box until `expiry`.
    fn set_penalty(&mut self, ip: &str, expiry: u128)
        ensures
            final(self).penalties() == old(self).penalties().insert(ip@, expiry),
            final(self).buckets() == old(self).buckets(),
            final(self).max_tokens() == old(self).max_tokens(),
            final(self).window_nanos() == old(self).window_nanos(),
            final(self).penalty_duration == old(self).penalty_duration,
            final(self).last_reading == old(self).last_reading,
    {
        proof {
            use_type_invariant(&*self);
        }
        let mut table = KeyedStore::new();
        std::mem::swap(&mut table, &mut self.penalty_box);
        table.insert(ip, expiry);
        std::mem::swap(&mut table, &mut self.penalty_box);
    }

    /// Takes `ip` out of the penalty box.
    fn clear_penalty(&mut self, ip: &str)
        ensures
            final(self).penalties() == old(self).penalties().remove(ip@),
            final(self).buckets() == old(self).buckets(),
            final(self).max_tokens() == old(self).max_tokens(),
            final(self).window_nanos() == old(self).window_nanos(),
            final(self).penalty_duration == old(self).penalty_duration,
            final(self).last_reading == old(self).last_reading,
    {
        proof {
            use_type_invariant(&*self);
        }
        let mut table = KeyedStore::new();
        std::mem::swap(&mut table, &mut self.penalty_box);
        table.remove(ip);
        std::mem::swap(&mut table, &mut self.penalty_box);
    }

    /// Whether `ip` sits in the penalty box at `now`; an expired entry is removed.
    pub fn is_in_penalty_box_at(&mut self, ip: &str, now: u128) -> (blocked: bool)
        ensures
            blocked == penalized(old(self).penalties(), ip@, now),
            final(self).penalties() == clear_expired(old(self).penalties(), ip@, now),
            final(self).buckets() == old(self).buckets(),
            final(self).max_tokens() == old(self).max_tokens(),
            final(self).window_nanos() == old(self).window_nanos(),
            final(self).clock() == old(self).clock(),
    {
        proof {
            use_type_invariant(&*self);
        }
        match self.penalty_box.get(ip) {
            Some(expiry) => {
                if expiry > now {
                    true
                } else {
                    self.clear_penalty(ip);
                    false
                }
            },
            None => false,
        }
    }

    /// Puts `ip` in the penalty box for one minute from `now`.
    pub fn penalty_box_ip_at(&mut self, ip: &str, now: u128)
        requires
            now <= max_duration_nanos(),
        ensures
            final(self).penalties() == old(self).penalties().insert(ip@, penalty_expiry(now)),
            final(self).buckets() == old(self).buckets(),
            final(self).max_tokens() == old(self).max_tokens(),
            final(self).window_nanos() == old(self).window_nanos(),
            final(self).clock() == old(self).clock(),
    {
        proof {
            use_type_invariant(&*self);
        }
        let expiry = now + self.penalty_duration;
        self.set_penalty(ip, expiry);
    }

    /// Checks `ip` at `now` and takes a token when it is allowed.
    pub fn check_and_consume_at(&mut self, ip: &str, now: u128) -> (res: RateLimitResult)
        ensures
            (res, final(self).buckets(), final(self).penalties()) == check_outcome(
                old(self).buckets(),
                old(self).penalties(),
                ip@,
                now,
                old(self).max_tokens(),
                old(self).window_nanos(),
            ),
            final(self).max_tokens() == old(self).max_tokens(),
            final(self).window_nanos() == old(self).window_nanos(),
            final(self).clock() == old(self).clock(),
    {
        proof {
            use_type_invariant(&*self);
        }
        let boxed = self.is_in_penalty_box_at(ip, now);
        proof {
            use_type_invariant(&*self);
        }
        if boxed {
            match self.penalty_box.get(ip) {
                Some(expiry) => {
                    if expiry > now {
                        return RateLimitResult::Blocked {
                            retry_after_secs: ((expiry - now) / 1_000_000_000) as u64,
                        };
                    }
                },
                None => {},
            }
        }
        let found = self.state.get(ip);
        let mut bucket = match found {
            Some(b) => b,
            None => RateBucketState { last_reset: now, tokens_remaining: self.max_tokens },
        };
        let elapsed: u128 = if now >= bucket.last_reset {
            now - bucket.last_reset
        } else {
            0
        };
        if elapsed >= self.refill_interval {
            bucket = RateBucketState { last_reset: now, tokens_remaining: self.max_tokens };
        }
        if bucket.tokens_remaining > 0 {
            bucket.tokens_remaining = bucket.tokens_remaining - 1;
            self.store_bucket(ip, bucket);
            RateLimitResult::Allowed
        } else {
            let since: u128 = if now >= bucket.last_reset {
                now - bucket.last_reset
            } else {
                0
            };
            let left: u128 = if self.refill_interval >= since {
                self.refill_interval - since
            } else {
                0
            };
            let secs = (left / 1_000_000_000) as u64;
            self.store_bucket(ip, bucket);
            RateLimitResult::Blocked { retry_after_secs: if secs >= 1 { secs } else { 1 } }
        }
    }

    /// Reads the monotonic clock. `Instant` never goes backwards, and the limiter holds
    /// to that: a reading below the latest one used is taken as the latest one.
    fn read_clock(&mut self) -> (now: u128)
        ensures
            old(self).clock() <= now <= max_duration_nanos(),
            final(self).clock() == now,
            final(self).buckets() == old(self).buckets(),
            final(self).penalties() == old(self).penalties(),
            final(self).max_tokens() == old(self).max_tokens(),
            final(self).window_nanos() == old(self).window_nanos(),
    {
        proof {
            use_type_invariant(&*self);
        }
        let reading = nanos_since(&self.clock_origin);
        let now = if reading >= self.last_reading {
            reading
        } else {
            self.last_reading
        };
        self.last_reading = now;
        now
    }

    /// Checks `ip` now and takes a token when it is allowed. The result is the one
    /// `check_and_consume_at` gives for a reading of the limiter's clock no earlier
    /// than any reading it used before.
    pub fn check_and_consume(&mut self, ip: &str) -> (res: RateLimitResult)
        ensures
            exists|now: u128|
                old(self).clock() <= now <= max_duration_nanos() && final(self).clock() == now && (res, final(self).buckets(), final(self).penalties())
                    == #[trigger] check_outcome(
                    old(self).buckets(),
                    old(self).penalties(),
                    ip@,
                    now,
                    old(self).max_tokens(),
                    old(self).window_nanos(),
                ),
            final(self).max_tokens() == old(self).max_tokens(),
            final(self).window_nanos() == old(self).window_nanos(),
    {
        proof {
            use_type_invariant(&*self);
        }
        let now = self.read_clock();
        self.check_and_consume_at(ip, now)
    }

    /// Puts `ip` in the penalty box for one minute from now (a clock reading no
    /// earlier than any used before).
    pub fn penalty_box_ip(&mut self, ip: &str)
        ensures
            exists|now: u128|
                old(self).clock() <= now <= max_duration_nanos() && final(self).clock() == now && final(self).penalties() == old(
                    self,
                ).penalties().insert(ip@, #[trigger] penalty_expiry(now)),
            final(self).buckets() == old(self).buckets(),
            final(self).max_tokens() == old(self).max_tokens(),
            final(self).window_nanos() == old(self).window_nanos(),
    {
        proof {
            use_type_invariant(&*self);
        }
        let now = self.read_clock();
        self.penalty_box_ip_at(ip, now);
    }

    /// Whether `ip` sits in the penalty box now (a clock reading no earlier than any
    /// used before); an expired entry is removed.
    pub fn is_in_penalty_box(&mut self, ip: &str) -> (blocked: bool)
        ensures
            exists|now: u128|
                old(self).clock() <= now <= max_duration_nanos() && final(self).clock() == now && blocked == #[trigger] penalized(
                    old(self).penalties(),
                    ip@,
                    now,
                ) && final(self).penalties() == clear_expired(old(self).penalties(), ip@, now),
            final(self).buckets() == old(self).buckets(),
            final(self).max_tokens() == old(self).max_tokens(),
            final(self).window_nanos() == old(self).window_nanos(),
    {
        proof {
            use_type_invariant(&*self);
        }
        let now = self.read_clock();
        self.is_in_penalty_box_at(ip, now)
    }
}

} // verus!
