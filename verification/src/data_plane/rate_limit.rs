//! Rate limiting: one token bucket for each client address.
use crate::clock::{elapsed_since, monotonic_reading};
use crate::control_plane::admin_api::dto::RateLimitDTO;
use crate::model::map_views;
use crate::outside::{duration_nanos, duration_secs};
use crate::str_map::{
    distinct_keys, entry_of, lemma_entry_after_change, lemma_key_position_is, lemma_map_views,
    with_entry, StrMap,
};
use std::time::{Duration, Instant};
use vstd::prelude::*;

verus! {

/// Time since the start of a clock: whole seconds, and the rest in nanoseconds.
#[derive(Clone, Copy, Debug, PartialEq, Eq, Structural)]
pub struct Uptime {
    pub secs: u64,
    pub nanos: u32,
}

impl Uptime {
    /// The same time in nanoseconds.
    pub open spec fn in_nanos(self) -> int {
        self.secs * 1_000_000_000 + self.nanos
    }

    /// The rest is less than a second.
    pub open spec fn valid(self) -> bool {
        self.nanos < 1_000_000_000
    }
}

/// The whole seconds from `earlier` to `now`; none where `earlier` is the later one.
pub open spec fn secs_between(earlier: Uptime, now: Uptime) -> nat {
    if earlier.in_nanos() <= now.in_nanos() {
        ((now.in_nanos() - earlier.in_nanos()) / 1_000_000_000) as nat
    } else {
        0
    }
}

/// The whole seconds from `earlier` to `now`; none where `earlier` is the later one.
pub fn whole_secs_between(earlier: Uptime, now: Uptime) -> (r: u64)
    requires
        earlier.valid(),
        now.valid(),
    ensures
        r == secs_between(earlier, now),
{
    if now.secs < earlier.secs || (now.secs == earlier.secs && now.nanos < earlier.nanos) {
        0
    } else if now.nanos >= earlier.nanos {
        now.secs - earlier.secs
    } else {
        now.secs - earlier.secs - 1
    }
}

/// The time at which a clock has run for the given span.
pub open spec fn time_after(passed: Duration) -> Uptime {
    Uptime { secs: duration_secs(passed), nanos: duration_nanos(passed) }
}

/// The time at which a clock has run for the given span.
pub fn uptime_after(passed: Duration) -> (r: Uptime)
    ensures
        r == time_after(passed),
        r.valid(),
{
    Uptime { secs: passed.as_secs(), nanos: passed.subsec_nanos() }
}

/// Whether a clock that started at `origin` shows the time `now`: it is the time after the
/// span that the monotonic clock shows since then.
pub open spec fn clock_shows(origin: Instant, now: Uptime) -> bool {
    exists|passed: Duration|
        #[trigger] elapsed_since(origin, passed) && now.secs == duration_secs(passed) && now.nanos
            == duration_nanos(passed)
}

/// The time since `origin` on the monotonic clock.
fn uptime(origin: &Instant) -> (r: Uptime)
    ensures
        clock_shows(*origin, r),
        r.valid(),
{
    let passed = origin.elapsed();
    assert(elapsed_since(*origin, passed));
    uptime_after(passed)
}

/// The tokens of a bucket after `elapsed_secs` seconds: `refill_rate` more for each
/// second, up to the capacity.
pub open spec fn refilled(
    elapsed_secs: nat,
    current_tokens: nat,
    refill_rate: nat,
    capacity: nat,
) -> nat {
    let total = current_tokens + elapsed_secs * refill_rate;
    if total < capacity {
        total
    } else {
        capacity
    }
}

/// The tokens of a bucket after `elapsed_secs` seconds, up to the capacity.
pub fn calculate_refill_tokens(
    elapsed_secs: u64,
    current_tokens: usize,
    refill_rate: usize,
    capacity: usize,
) -> (r: usize)
    ensures
        r == refilled(
            elapsed_secs as nat,
            current_tokens as nat,
            refill_rate as nat,
            capacity as nat,
        ),
{
    assert(elapsed_secs * refill_rate <= u64::MAX * u64::MAX) by (nonlinear_arith)
        requires
            0 <= elapsed_secs <= u64::MAX,
            0 <= refill_rate <= u64::MAX,
    ;
    let added: u128 = elapsed_secs as u128 * refill_rate as u128;
    let total: u128 = current_tokens as u128 + added;
    if total < capacity as u128 {
        total as usize
    } else {
        capacity
    }
}

/// Whether a request is let through, and the tokens left after it.
pub fn try_acquire_decision(current_tokens: usize) -> (r: (bool, usize))
    ensures
        r.0 == (current_tokens > 0),
        r.1 == if current_tokens > 0 {
            current_tokens - 1
        } else {
            0
        },
{
    if current_tokens > 0 {
        (true, current_tokens - 1)
    } else {
        (false, current_tokens)
    }
}

/// What a token bucket holds.
pub struct BucketView {
    /// The most tokens it can hold.
    pub capacity: nat,
    /// The tokens it holds.
    pub tokens: nat,
    /// The tokens it gains per second.
    pub refill_rate: nat,
    /// When tokens were last added.
    pub last_refill: Uptime,
}

impl BucketView {
    /// A full bucket.
    pub open spec fn full(capacity: nat, refill_rate: nat, now: Uptime) -> BucketView {
        BucketView { capacity, tokens: capacity, refill_rate, last_refill: now }
    }

    /// The bucket with what the time up to `now` has added: nothing before a whole
    /// second has passed.
    pub open spec fn refill(self, now: Uptime) -> BucketView {
        let secs = secs_between(self.last_refill, now);
        if secs > 0 {
            BucketView {
                tokens: refilled(secs, self.tokens, self.refill_rate, self.capacity),
                last_refill: now,
                ..self
            }
        } else {
            self
        }
    }

    /// Whether a request at `now` is let through.
    pub open spec fn allows(self, now: Uptime) -> bool {
        self.refill(now).tokens > 0
    }

    /// The bucket after a request at `now`.
    pub open spec fn acquire(self, now: Uptime) -> BucketView {
        let full = self.refill(now);
        if full.tokens > 0 {
            BucketView { tokens: (full.tokens - 1) as nat, ..full }
        } else {
            full
        }
    }

    /// A bucket never holds more than its capacity.
    pub open spec fn valid(self) -> bool {
        &&& self.tokens <= self.capacity
        &&& self.last_refill.valid()
    }
}

/// A token bucket.
#[derive(Clone, Copy)]
pub struct TokenBucket {
    capacity: usize,
    current_tokens: usize,
    refill_rate: usize,
    last_refill: Uptime,
    origin: Instant,
}

impl View for TokenBucket {
    type V = BucketView;

    closed spec fn view(&self) -> BucketView {
        BucketView {
            capacity: self.capacity as nat,
            tokens: self.current_tokens as nat,
            refill_rate: self.refill_rate as nat,
            last_refill: self.last_refill,
        }
    }
}

impl TokenBucket {
    #[verifier::type_invariant]
    spec fn inv(self) -> bool {
        self@.valid()
    }

    /// When the clock of the bucket started.
    pub closed spec fn origin(self) -> Instant {
        self.origin
    }

    /// A full bucket whose clock starts now.
    pub fn new(capacity: usize, refill_rate: usize) -> (r: Self)
        ensures
            r@ == BucketView::full(
                capacity as nat,
                refill_rate as nat,
                Uptime { secs: 0, nanos: 0 },
            ),
            r@.valid(),
            monotonic_reading(r.origin()),
    {
        TokenBucket::full_at(
            capacity,
            refill_rate,
            Instant::now(),
            Uptime { secs: 0, nanos: 0 },
        )
    }

    /// A full bucket at time `now` of the clock that started at `origin`.
    fn full_at(capacity: usize, refill_rate: usize, origin: Instant, now: Uptime) -> (r: Self)
        requires
            now.valid(),
        ensures
            r@ == BucketView::full(capacity as nat, refill_rate as nat, now),
            r@.valid(),
            r.origin() == origin,
    {
        TokenBucket { capacity, current_tokens: capacity, refill_rate, last_refill: now, origin }
    }

    /// Takes a token, if there is one now.
    pub fn try_acquire(&mut self) -> (r: bool)
        ensures
            exists|now: Uptime|
                #![trigger old(self)@.acquire(now)]
                now.valid() && clock_shows(old(self).origin(), now) && r == old(self)@.allows(now)
                    && final(self)@ == old(self)@.acquire(now),
            final(self)@.valid(),
            final(self).origin() == old(self).origin(),
    {
        let now = uptime(&self.origin);
        let r = self.try_acquire_at(now);
        assert(r == old(self)@.allows(now) && self@ == old(self)@.acquire(now));
        r
    }

    /// Takes a token, if there is one at time `now`.
    pub fn try_acquire_at(&mut self, now: Uptime) -> (r: bool)
        requires
            now.valid(),
        ensures
            r == old(self)@.allows(now),
            final(self)@ == old(self)@.acquire(now),
            final(self)@.valid(),
            final(self).origin() == old(self).origin(),
    {
        proof {
            use_type_invariant(&*self);
        }
        let refilled = self.refill(now);
        let (allowed, remaining) = try_acquire_decision(refilled.current_tokens);
        *self = TokenBucket { current_tokens: remaining, ..refilled };
        allowed
    }

    /// The tokens left.
    pub fn remaining(&self) -> (r: usize)
        ensures
            r == self@.tokens,
            self@.valid(),
    {
        proof {
            use_type_invariant(self);
        }
        self.current_tokens
    }

    /// The bucket with what the time up to `now` has added.
    fn refill(&self, now: Uptime) -> (r: TokenBucket)
        requires
            now.valid(),
        ensures
            r@ == self@.refill(now),
            r@.valid(),
            r.origin() == self.origin(),
    {
        proof {
            use_type_invariant(self);
        }
        let elapsed = whole_secs_between(self.last_refill, now);
        if elapsed > 0 {
            TokenBucket {
                current_tokens: calculate_refill_tokens(
                    elapsed,
                    self.current_tokens,
                    self.refill_rate,
                    self.capacity,
                ),
                last_refill: now,
                ..*self
            }
        } else {
            *self
        }
    }
}

/// The policy and the buckets of a rate limiter.
#[verifier::ext_equal]
pub struct LimiterView {
    pub capacity: usize,
    pub refill_rate: usize,
    pub buckets: Seq<(Seq<char>, BucketView)>,
}

impl LimiterView {
    /// The bucket that a request of `ip` at `now` meets: its own, or else a full one
    /// under the current policy.
    pub open spec fn bucket(self, ip: Seq<char>, now: Uptime) -> BucketView {
        match entry_of(self.buckets, ip) {
            Some(b) => b,
            None => BucketView::full(self.capacity as nat, self.refill_rate as nat, now),
        }
    }

    /// The limiter after a request of `ip` at `now`.
    pub open spec fn check(self, ip: Seq<char>, now: Uptime) -> LimiterView {
        LimiterView {
            buckets: with_entry(self.buckets, ip, self.bucket(ip, now).acquire(now)),
            ..self
        }
    }
}

/// Whether a check of `ip` now leads from one limiter to another and has the given outcome:
/// at a time that the clock of the limiter shows, which started at `origin`, the request is
/// let through or not, and so many tokens are left.
pub open spec fn checked_now(
    origin: Instant,
    before: LimiterView,
    ip: Seq<char>,
    after: LimiterView,
    outcome: (bool, usize),
) -> bool {
    exists|now: Uptime|
        #![trigger before.check(ip, now)]
        clock_shows(origin, now) && outcome.0 == before.bucket(ip, now).allows(now) && outcome.1
            == before.bucket(ip, now).acquire(now).tokens && after == before.check(ip, now)
}

/// Limits the rate of requests of each client address.
pub struct RateLimiter {
    enabled: bool,
    capacity: usize,
    refill_rate: usize,
    buckets: StrMap<TokenBucket>,
    origin: Instant,
}

impl View for RateLimiter {
    type V = LimiterView;

    closed spec fn view(&self) -> LimiterView {
        LimiterView {
            capacity: self.capacity,
            refill_rate: self.refill_rate,
            buckets: map_views(self.buckets@),
        }
    }
}

impl RateLimiter {
    #[verifier::type_invariant]
    spec fn inv(self) -> bool {
        self.enabled
    }

    /// When the clock of the limiter started.
    pub closed spec fn origin(self) -> Instant {
        self.origin
    }

    /// A limiter under the given policy, which has met no client yet. Its clock starts now.
    pub fn new(capacity: usize, refill_rate: usize) -> (r: Self)
        ensures
            r@ == (LimiterView { capacity, refill_rate, buckets: Seq::empty() }),
            monotonic_reading(r.origin()),
    {
        let r = RateLimiter {
            enabled: true,
            capacity,
            refill_rate,
            buckets: StrMap::new(),
            origin: Instant::now(),
        };
        assert(r@.buckets =~= Seq::empty());
        r
    }

    /// Whether a request of `ip` is let through now, and the tokens left to `ip`. Now is what
    /// the monotonic clock shows since the limiter was made.
    pub fn check(&mut self, ip: &str) -> (r: (bool, usize))
        ensures
            exists|now: Uptime|
                #![trigger old(self)@.check(ip@, now)]
                now.valid() && clock_shows(old(self).origin(), now) && r.0 == old(self)@.bucket(ip@, now).allows(now) && r.1 == old(
                    self,
                )@.bucket(ip@, now).acquire(now).tokens && final(self)@ == old(self)@.check(
                    ip@,
                    now,
                ),
            checked_now(old(self).origin(), old(self)@, ip@, final(self)@, r),
            final(self).origin() == old(self).origin(),
    {
        let now = uptime(&self.origin);
        let r = self.check_at(ip, now);
        assert(self@ == old(self)@.check(ip@, now));
        r
    }

    /// Whether a request of `ip` is let through at time `now`, and the tokens left to
    /// `ip`.
    pub fn check_at(&mut self, ip: &str, now: Uptime) -> (r: (bool, usize))
        requires
            now.valid(),
        ensures
            r.0 == old(self)@.bucket(ip@, now).allows(now),
            r.1 == old(self)@.bucket(ip@, now).acquire(now).tokens,
            final(self)@ == old(self)@.check(ip@, now),
            final(self).origin() == old(self).origin(),
    {
        proof {
            use_type_invariant(&*self);
            lemma_map_views(self.buckets@, ip@);
        }
        let mut bucket = match self.buckets.get(ip) {
            Some(b) => *b,
            None => TokenBucket::full_at(self.capacity, self.refill_rate, self.origin, now),
        };
        assert(bucket@ == self@.bucket(ip@, now));
        let allowed = bucket.try_acquire_at(now);
        let remaining = bucket.remaining();
        let mut buckets: StrMap<TokenBucket> = StrMap::new();
        core::mem::swap(&mut buckets, &mut self.buckets);
        buckets.insert(ip.to_owned(), bucket);
        self.buckets = buckets;
        (allowed, remaining)
    }

    /// Replaces the policy; buckets that exist keep theirs.
    pub fn update_policy(&mut self, capacity: usize, refill_rate: usize)
        ensures
            final(self)@ == (LimiterView { capacity, refill_rate, ..old(self)@ }),
            final(self).origin() == old(self).origin(),
    {
        proof {
            use_type_invariant(&*self);
        }
        self.capacity = capacity;
        self.refill_rate = refill_rate;
    }

    /// The current policy.
    pub fn summary(&self) -> (r: RateLimitDTO)
        ensures
            r == (RateLimitDTO {
                enabled: true,
                capacity: Some(self@.capacity),
                refill_rate: Some(self@.refill_rate),
            }),
    {
        proof {
            use_type_invariant(self);
        }
        RateLimitDTO {
            enabled: self.enabled,
            capacity: Some(self.capacity),
            refill_rate: Some(self.refill_rate),
        }
    }
}

/// A request of one client leaves the bucket of every other client as it is.
pub proof fn clients_are_isolated(
    limiter: LimiterView,
    ip: Seq<char>,
    other: Seq<char>,
    now: Uptime,
    later: Uptime,
)
    requires
        distinct_keys(limiter.buckets),
        ip != other,
    ensures
        limiter.check(ip, now).bucket(other, later) == limiter.bucket(other, later),
        distinct_keys(limiter.check(ip, now).buckets),
{
    lemma_entry_after_change(
        limiter.buckets,
        ip,
        limiter.bucket(ip, now).acquire(now),
        other,
    );
}

/// A new policy holds for the clients that come after it; a client that has a
/// bucket keeps it.
pub proof fn new_policy_holds_for_new_clients(
    limiter: LimiterView,
    capacity: usize,
    refill_rate: usize,
    ip: Seq<char>,
    now: Uptime,
)
    ensures
        ({
            let updated = LimiterView { capacity, refill_rate, ..limiter };
            updated.bucket(ip, now) == match entry_of(limiter.buckets, ip) {
                Some(b) => b,
                None => BucketView::full(capacity as nat, refill_rate as nat, now),
            }
        }),
{
}

/// A bucket within its capacity stays within it.
pub proof fn bucket_stays_within_capacity(bucket: BucketView, now: Uptime)
    requires
        bucket.valid(),
        now.valid(),
    ensures
        bucket.acquire(now).valid(),
        bucket.acquire(now).capacity == bucket.capacity,
        bucket.acquire(now).refill_rate == bucket.refill_rate,
{
}

/// How many of the requests at the given times a bucket lets through.
pub open spec fn allowed_requests(bucket: BucketView, times: Seq<Uptime>) -> nat
    decreases times.len(),
{
    if times.len() == 0 {
        0
    } else {
        (if bucket.allows(times[0]) {
            1nat
        } else {
            0nat
        }) + allowed_requests(bucket.acquire(times[0]), times.skip(1))
    }
}

/// Whether the times follow one another, none before the last refill.
pub open spec fn in_order(bucket: BucketView, times: Seq<Uptime>) -> bool {
    &&& forall|i: int|
        0 <= i < times.len() ==> bucket.last_refill.in_nanos() <= (#[trigger] times[i]).in_nanos()
    &&& forall|i: int, j: int|
        0 <= i <= j < times.len() ==> (#[trigger] times[i]).in_nanos() <= (
        #[trigger] times[j]).in_nanos()
}

/// Over any run of requests a bucket lets through no more than the tokens it held
/// at first and those that the whole seconds since its last refill have added.
pub proof fn requests_are_bounded(bucket: BucketView, times: Seq<Uptime>)
    requires
        times.len() > 0,
        in_order(bucket, times),
    ensures
        allowed_requests(bucket, times) <= bucket.tokens + secs_between(
            bucket.last_refill,
            times.last(),
        ) * bucket.refill_rate,
    decreases times.len(),
{
    let now = times[0];
    let next = bucket.acquire(now);
    let rest = times.skip(1);
    let end = times.last();
    let rate = bucket.refill_rate;
    let first = secs_between(bucket.last_refill, now);
    let all = secs_between(bucket.last_refill, end);
    assert(bucket.refill(now).tokens <= bucket.tokens + first * rate);
    assert(first <= all) by {
        assert(times[0].in_nanos() <= times[times.len() - 1].in_nanos());
    }
    if times.len() == 1 {
        assert(allowed_requests(next, rest) == 0);
    } else {
        assert(rest.last() == end);
        assert forall|i: int| 0 <= i < rest.len() implies next.last_refill.in_nanos() <= (
        #[trigger] rest[i]).in_nanos() by {
            assert(times[0].in_nanos() <= times[i + 1].in_nanos());
        }
        assert forall|i: int, j: int| 0 <= i <= j < rest.len() implies (
        #[trigger] rest[i]).in_nanos() <= (#[trigger] rest[j]).in_nanos() by {
            assert(times[i + 1].in_nanos() <= times[j + 1].in_nanos());
        }
        requests_are_bounded(next, rest);
        let later = secs_between(next.last_refill, end);
        if first > 0 {
            assert(next.last_refill == now);
            assert(times[0].in_nanos() <= times[times.len() - 1].in_nanos());
            assert(first + later <= all);
            assert(first * rate + later * rate <= all * rate) by (nonlinear_arith)
                requires
                    first + later <= all,
                    rate >= 0,
            ;
        } else {
            assert(first * rate == 0) by (nonlinear_arith)
                requires
                    first == 0,
            ;
        }
    }
    assert(first * rate <= all * rate) by (nonlinear_arith)
        requires
            first <= all,
            rate >= 0,
    ;
}

/// The nanoseconds from the start of a clock.
pub open spec fn nanos_of(t: Uptime) -> int {
    t.secs * 1_000_000_000 + t.nanos
}

/// For each whole second since the last refill, and for no part of one, the tokens of the
/// rate are added, up to the capacity; from then on the seconds are counted anew. Before
/// the first whole second, and for a time before the last refill, nothing is added.
pub proof fn every_whole_second_adds_the_rate(bucket: BucketView, now: Uptime, secs: int)
    requires
        secs >= 0,
        nanos_of(bucket.last_refill) + secs * 1_000_000_000 <= nanos_of(now) < nanos_of(
            bucket.last_refill,
        ) + (secs + 1) * 1_000_000_000 || secs == 0 && nanos_of(now) < nanos_of(bucket.last_refill),
        bucket.tokens <= bucket.capacity,
    ensures
        bucket.refill(now).tokens == vstd::math::min(
            bucket.capacity as int,
            bucket.tokens + secs * bucket.refill_rate,
        ),
        bucket.refill(now).last_refill == if secs > 0 {
            now
        } else {
            bucket.last_refill
        },
        bucket.refill(now).capacity == bucket.capacity,
        bucket.refill(now).refill_rate == bucket.refill_rate,
{
    assert(secs_between(bucket.last_refill, now) == secs) by {
        if nanos_of(bucket.last_refill) <= nanos_of(now) {
            let d = nanos_of(now) - nanos_of(bucket.last_refill);
            assert(d / 1_000_000_000 == secs);
        }
    }
    if secs == 0 {
        assert(secs * bucket.refill_rate == 0) by (nonlinear_arith)
            requires
                secs == 0,
        ;
    }
}

/// A request is let through if and only if a token is there for it, and it takes one token;
/// a request that is not let through takes none.
pub proof fn a_request_takes_one_token(bucket: BucketView, now: Uptime)
    ensures
        bucket.allows(now) <==> bucket.refill(now).tokens >= 1,
        bucket.allows(now) ==> bucket.acquire(now).tokens + 1 == bucket.refill(now).tokens,
        !bucket.allows(now) ==> bucket.acquire(now).tokens == 0,
        bucket.acquire(now).last_refill == bucket.refill(now).last_refill,
        bucket.acquire(now).capacity == bucket.capacity,
        bucket.acquire(now).refill_rate == bucket.refill_rate,
{
}

/// A client that the limiter has not met is let through as long as the policy has any
/// tokens, and is left with one less than the capacity.
pub proof fn new_clients_start_with_the_capacity(limiter: LimiterView, ip: Seq<char>, now: Uptime)
    requires
        forall|i: int| 0 <= i < limiter.buckets.len() ==> (#[trigger] limiter.buckets[i]).0 != ip,
    ensures
        limiter.bucket(ip, now).allows(now) <==> limiter.capacity > 0,
        limiter.capacity > 0 ==> limiter.bucket(ip, now).acquire(now).tokens == limiter.capacity
            - 1,
        limiter.bucket(ip, now).capacity == limiter.capacity,
        limiter.bucket(ip, now).refill_rate == limiter.refill_rate,
        limiter.bucket(ip, now).last_refill == now,
{
    lemma_key_position_is(limiter.buckets, ip, limiter.buckets.len() as int);
}

/// The bucket that a request leaves behind is the one that the next request of the same
/// client meets, and the policy stays as it is.
pub proof fn a_client_keeps_its_bucket(
    limiter: LimiterView,
    ip: Seq<char>,
    now: Uptime,
    later: Uptime,
)
    requires
        distinct_keys(limiter.buckets),
    ensures
        limiter.check(ip, now).bucket(ip, later) == limiter.bucket(ip, now).acquire(now),
        limiter.check(ip, now).capacity == limiter.capacity,
        limiter.check(ip, now).refill_rate == limiter.refill_rate,
{
    lemma_entry_after_change(limiter.buckets, ip, limiter.bucket(ip, now).acquire(now), ip);
}

/// A client is let through again once a whole second has passed since its last request,
/// however empty its bucket was, where the bucket can hold a token and gains any.
pub proof fn waiting_a_second_lets_a_client_through(
    limiter: LimiterView,
    ip: Seq<char>,
    now: Uptime,
    later: Uptime,
)
    requires
        distinct_keys(limiter.buckets),
        limiter.bucket(ip, now).capacity > 0,
        limiter.bucket(ip, now).refill_rate > 0,
        nanos_of(limiter.bucket(ip, now).last_refill) <= nanos_of(now),
        nanos_of(now) + 1_000_000_000 <= nanos_of(later),
    ensures
        limiter.check(ip, now).bucket(ip, later).allows(later),
{
    a_client_keeps_its_bucket(limiter, ip, now, later);
    let bucket = limiter.bucket(ip, now).acquire(now);
    let secs = secs_between(bucket.last_refill, later);
    assert(secs >= 1);
    assert(secs * bucket.refill_rate >= 1) by (nonlinear_arith)
        requires
            secs >= 1,
            bucket.refill_rate >= 1,
    ;
}

/// Within one second a bucket lets through as many requests as it holds tokens, and no more.
pub proof fn a_burst_takes_the_tokens_there_are(bucket: BucketView, times: Seq<Uptime>)
    requires
        forall|i: int|
            0 <= i < times.len() ==> nanos_of(#[trigger] times[i]) < nanos_of(bucket.last_refill)
                + 1_000_000_000,
    ensures
        allowed_requests(bucket, times) == vstd::math::min(
            bucket.tokens as int,
            times.len() as int,
        ),
    decreases times.len(),
{
    if times.len() > 0 {
        let now = times[0];
        let rest = times.skip(1);
        assert(nanos_of(now) < nanos_of(bucket.last_refill) + 1_000_000_000);
        assert(secs_between(bucket.last_refill, now) == 0);
        assert forall|i: int| 0 <= i < rest.len() implies nanos_of(#[trigger] rest[i]) < nanos_of(
            bucket.acquire(now).last_refill,
        ) + 1_000_000_000 by {
            assert(rest[i] == times[i + 1]);
        }
        a_burst_takes_the_tokens_there_are(bucket.acquire(now), rest);
    }
}

/// Two checks of one client, one after the other: where the clock shows at the second a time
/// that is a whole second or more after that of the first, the second is let through, however
/// empty the bucket was, as long as the bucket can hold a token and gains any.
pub proof fn clients_that_wait_are_let_through(
    origin: Instant,
    first: LimiterView,
    ip: Seq<char>,
    second: LimiterView,
    outcome: (bool, usize),
    third: LimiterView,
    later_outcome: (bool, usize),
)
    requires
        distinct_keys(first.buckets),
        checked_now(origin, first, ip, second, outcome),
        checked_now(origin, second, ip, third, later_outcome),
    ensures
        exists|now: Uptime, later: Uptime|
            #[trigger] clock_shows(origin, now) && #[trigger] clock_shows(origin, later) && (
            first.bucket(ip, now).capacity > 0 && first.bucket(ip, now).refill_rate > 0 && nanos_of(
                first.bucket(ip, now).last_refill,
            ) <= nanos_of(now) && nanos_of(now) + 1_000_000_000 <= nanos_of(later)
                ==> later_outcome.0),
{
    let now = choose|now: Uptime|
        #![trigger first.check(ip, now)]
        clock_shows(origin, now) && outcome.0 == first.bucket(ip, now).allows(now) && outcome.1
            == first.bucket(ip, now).acquire(now).tokens && second == first.check(ip, now);
    let later = choose|later: Uptime|
        #![trigger second.check(ip, later)]
        clock_shows(origin, later) && later_outcome.0 == second.bucket(ip, later).allows(later)
            && later_outcome.1 == second.bucket(ip, later).acquire(later).tokens && third
            == second.check(ip, later);
    if first.bucket(ip, now).capacity > 0 && first.bucket(ip, now).refill_rate > 0 && nanos_of(
        first.bucket(ip, now).last_refill,
    ) <= nanos_of(now) && nanos_of(now) + 1_000_000_000 <= nanos_of(later) {
        waiting_a_second_lets_a_client_through(first, ip, now, later);
    }
    assert(clock_shows(origin, now) && clock_shows(origin, later));
}

/// The time of a check is a reading of the monotonic clock: its seconds and nanoseconds are
/// those of a span that `Instant::elapsed` gave for the start of the limiter.
pub proof fn checks_go_by_the_monotonic_clock(
    origin: Instant,
    before: LimiterView,
    ip: Seq<char>,
    after: LimiterView,
    outcome: (bool, usize),
)
    requires
        checked_now(origin, before, ip, after, outcome),
    ensures
        exists|passed: Duration|
            #[trigger] call_ensures(Instant::elapsed, (&origin,), passed) && ({
                let now = Uptime { secs: duration_secs(passed), nanos: duration_nanos(passed) };
                &&& outcome.0 == before.bucket(ip, now).allows(now)
                &&& outcome.1 == before.bucket(ip, now).acquire(now).tokens
                &&& after == before.check(ip, now)
            }),
{
    let now = choose|now: Uptime|
        #![trigger before.check(ip, now)]
        clock_shows(origin, now) && outcome.0 == before.bucket(ip, now).allows(now) && outcome.1
            == before.bucket(ip, now).acquire(now).tokens && after == before.check(ip, now);
    let passed = choose|passed: Duration|
        #[trigger] elapsed_since(origin, passed) && now.secs == duration_secs(passed) && now.nanos
            == duration_nanos(passed);
    assert(call_ensures(Instant::elapsed, (&origin,), passed));
    assert(now == (Uptime { secs: duration_secs(passed), nanos: duration_nanos(passed) }));
}

/// A refill adds the rate once for each second and stops at the capacity.
pub proof fn refills_stop_at_the_capacity(secs: nat, tokens: nat, rate: nat, capacity: nat)
    ensures
        refilled(secs, tokens, rate, capacity) <= capacity,
        tokens + secs * rate <= capacity ==> refilled(secs, tokens, rate, capacity) == tokens + secs
            * rate,
        tokens + secs * rate >= capacity ==> refilled(secs, tokens, rate, capacity) == capacity,
{
}

} // verus!
