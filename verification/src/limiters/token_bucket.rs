//! The token-bucket limiter: tokens that are used up and drip back at a
//! steady rate.

use vstd::prelude::*;
use crate::error::RateLimitError;
use crate::turnstile::{
    answers, answers_waiting, idle_for, Acquisition, Completion, Decision, Turnstile,
    TurnstileState,
};
use crate::lease::RateLimitLease;
use crate::queue::{
    lemma_eviction_count, lemma_total_nothing, lemma_total_subrange, total_permits,
    QueueProcessingOrder, Waiter,
};
use crate::statistics::RateLimiterStatistics;
use crate::time::{clamp_u64, Duration, Instant};
use crate::traits::{RateLimiter, ReplenishingRateLimiter};

verus! {

/// How a token-bucket limiter is set up.
#[derive(Clone, Copy, Debug)]
pub struct TokenBucketRateLimiterOptions {
    /// The tokens that the bucket can hold. At least one.
    pub token_limit: u32,
    /// The tokens that come back in each period. At least one.
    pub tokens_per_period: u32,
    /// The time in which `tokens_per_period` tokens come back. Longer than
    /// nothing.
    pub replenishment_period: Duration,
    /// The most tokens that waiting acquisitions may ask for together.
    pub queue_limit: u32,
    pub queue_processing_order: QueueProcessingOrder,
    /// Whether a timer fills the bucket, by the time that has passed. Where
    /// none does, each call of `try_replenish` adds the tokens of one period.
    pub auto_replenishment: bool,
}

impl TokenBucketRateLimiterOptions {
    /// Whether a limiter can be built from the options.
    pub open spec fn valid(self) -> bool {
        self.token_limit > 0 && self.tokens_per_period > 0 && self.replenishment_period@ > 0
    }

    /// What is wrong with the options, where something is.
    pub open spec fn fault(self) -> Seq<char> {
        if self.token_limit == 0 {
            "token_limit must be greater than 0"@
        } else if self.tokens_per_period == 0 {
            "tokens_per_period must be greater than 0"@
        } else {
            "replenishment_period must be greater than zero"@
        }
    }

    /// The options, or an error if no limiter can be built from them.
    pub fn new(
        token_limit: u32,
        tokens_per_period: u32,
        replenishment_period: Duration,
        queue_limit: u32,
        queue_processing_order: QueueProcessingOrder,
        auto_replenishment: bool,
    ) -> (r: Result<TokenBucketRateLimiterOptions, RateLimitError>)
        ensures
            ({
                let options = TokenBucketRateLimiterOptions {
                    token_limit,
                    tokens_per_period,
                    replenishment_period,
                    queue_limit,
                    queue_processing_order,
                    auto_replenishment,
                };
                match r {
                    Ok(made) => options.valid() && made == options,
                    Err(e) => !options.valid() && e.is_invalid(options.fault()),
                }
            }),
    {
        let options = TokenBucketRateLimiterOptions {
            token_limit,
            tokens_per_period,
            replenishment_period,
            queue_limit,
            queue_processing_order,
            auto_replenishment,
        };
        match options.check() {
            Some(e) => Err(e),
            None => Ok(options),
        }
    }

    /// The error that building a limiter from the options gives, if any.
    pub fn check(&self) -> (r: Option<RateLimitError>)
        ensures
            match r {
                Some(e) => !self.valid() && e.is_invalid(self.fault()),
                None => self.valid(),
            },
    {
        if self.token_limit == 0 {
            Some(RateLimitError::invalid("token_limit must be greater than 0"))
        } else if self.tokens_per_period == 0 {
            Some(RateLimitError::invalid("tokens_per_period must be greater than 0"))
        } else if self.replenishment_period.is_zero() {
            Some(RateLimitError::invalid("replenishment_period must be greater than zero"))
        } else {
            None
        }
    }
}

/// The periods that it takes to gain `shortfall` drops at `per_period`
/// drops a period, rounded up, and one at the least.
pub open spec fn periods_for(shortfall: nat, per_period: nat) -> nat {
    if shortfall <= per_period {
        1
    } else {
        ((shortfall + per_period - 1) / (per_period as int)) as nat
    }
}

/// `periods_for` is the least number of periods, from one on, in which the
/// shortfall is made up.
pub proof fn lemma_periods_for(shortfall: nat, per_period: nat)
    requires
        per_period > 0,
    ensures
        periods_for(shortfall, per_period) >= 1,
        periods_for(shortfall, per_period) * per_period >= shortfall,
        periods_for(shortfall, per_period) > 1 ==> (periods_for(shortfall, per_period) - 1)
            * per_period < shortfall,
{
    if shortfall > per_period {
        let x = (shortfall + per_period - 1) as int;
        let d = per_period as int;
        vstd::arithmetic::div_mod::lemma_fundamental_div_mod(x, d);
        vstd::arithmetic::div_mod::lemma_mod_pos_bound(x, d);
        let q = x / d;
        assert(x == d * q + x % d);
        assert(q * d == d * q) by (nonlinear_arith);
        assert((q - 1) * d == q * d - d) by (nonlinear_arith);
        assert(q >= 1) by {
            if q <= 0 {
                assert(d * q <= 0) by (nonlinear_arith)
                    requires
                        q <= 0,
                        d > 0,
                ;
            }
        }
    } else {
        assert(1 * per_period == per_period) by (nonlinear_arith);
    }
}

/// The whole tokens in `drops` drops at `per_token` drops a token.
pub open spec fn whole_tokens(drops: nat, per_token: nat) -> nat {
    drops / per_token
}

pub proof fn lemma_whole_tokens(drops: nat, per_token: nat)
    requires
        per_token > 0,
    ensures
        whole_tokens(drops, per_token) * per_token <= drops,
        drops < (whole_tokens(drops, per_token) + 1) * per_token,
        forall|n: nat| #[trigger] (n * per_token) <= drops <==> n <= whole_tokens(drops, per_token),
{
    let x = drops as int;
    let d = per_token as int;
    let q = x / d;
    vstd::arithmetic::div_mod::lemma_fundamental_div_mod(x, d);
    vstd::arithmetic::div_mod::lemma_mod_pos_bound(x, d);
    assert(q * d == d * q) by (nonlinear_arith);
    assert((q + 1) * d == q * d + d) by (nonlinear_arith);
    assert forall|n: nat| #[trigger] (n * per_token) <= drops <==> n <= whole_tokens(
        drops,
        per_token,
    ) by {
        if n <= q {
            assert(n * d <= q * d) by (nonlinear_arith)
                requires
                    n <= q,
                    d > 0,
            ;
        } else {
            assert(n * d >= (q + 1) * d) by (nonlinear_arith)
                requires
                    n >= q + 1,
                    d > 0,
            ;
        }
    }
}

/// The state of a token-bucket limiter.
///
/// The bucket is measured in drops. A token is as many drops as the period
/// has nanoseconds, so a bucket that gains `tokens_per_period` tokens in a
/// period gains `tokens_per_period` drops in a nanosecond, and the parts of
/// tokens that have dripped in are counted exactly.
pub struct TokenBucketState {
    pub turnstile: TurnstileState,
    /// What is in the bucket, in drops.
    pub drops: nat,
    pub tokens_per_period: nat,
    pub period: Duration,
    pub auto_replenishment: bool,
    /// When the bucket was last filled up.
    pub last_replenishment: Instant,
}

impl TokenBucketState {
    /// A limiter with a full bucket.
    pub open spec fn initial(options: TokenBucketRateLimiterOptions, now: Instant) -> TokenBucketState {
        TokenBucketState {
            turnstile: TurnstileState::initial(
                options.token_limit as nat,
                options.queue_limit as nat,
                options.queue_processing_order,
                now,
            ),
            drops: options.token_limit as nat * options.replenishment_period@,
            tokens_per_period: options.tokens_per_period as nat,
            period: options.replenishment_period,
            auto_replenishment: options.auto_replenishment,
            last_replenishment: now,
        }
    }

    /// The drops of a full bucket.
    pub open spec fn brim(self) -> nat {
        self.turnstile.capacity * self.period@
    }

    /// The whole tokens in the bucket.
    pub open spec fn available(self) -> nat {
        whole_tokens(self.drops, self.period@)
    }

    /// What holds of every token-bucket limiter: the bucket holds no more
    /// than its limit, somebody waits only while it is not full, and the
    /// limiter is idle exactly while it is full.
    pub open spec fn inv(self) -> bool {
        &&& self.turnstile.inv()
        &&& self.period@ > 0
        &&& 1 <= self.tokens_per_period <= u32::MAX
        &&& self.drops <= self.brim()
        &&& self.turnstile.queue.len() > 0 ==> self.drops < self.brim()
        &&& self.turnstile.idle_since is Some <==> self.drops == self.brim()
    }

    /// What is done with a request for `n` tokens. A request for no tokens
    /// is granted if there is anything in the bucket, be it less than a
    /// token.
    pub open spec fn decision(self, n: u32, waiting: bool, cancelled: bool) -> Decision {
        self.turnstile.decision(n, self.available(), self.drops > 0, waiting, cancelled)
    }

    /// The drops that are missing for a request for `n` tokens behind
    /// waiters that ask for `queued` tokens.
    pub open spec fn shortfall(self, n: u32, queued: nat) -> nat {
        let wanted = n as nat * self.period@;
        let missing: nat = if wanted > self.drops {
            (wanted - self.drops) as nat
        } else {
            0
        };
        missing + queued * self.period@
    }

    /// How long a request for `n` tokens that was turned down should wait
    /// while waiters ask for `queued` tokens: the periods in which the
    /// shortfall is made up.
    pub open spec fn retry_after(self, n: u32, queued: nat) -> Duration {
        Duration {
            nanos: clamp_u64(
                (periods_for(self.shortfall(n, queued), self.tokens_per_period * self.period@)
                    * self.period@) as int,
            ) as u64,
        }
    }

    /// The hints for waiters that leave the queue one after the other, the
    /// oldest first, where the waiters asked for `queued` tokens before the
    /// first of them left: each is told how long a request like its own
    /// should wait once it has left.
    pub open spec fn parting_hints(self, leaving: Seq<Waiter>, queued: nat) -> Seq<
        Option<Duration>,
    > {
        Seq::new(
            leaving.len(),
            |i: int|
                Some(
                    self.retry_after(
                        leaving[i].permits,
                        (queued - total_permits(leaving.subrange(0, i + 1))) as nat,
                    ),
                ),
        )
    }

    /// The drops that a replenishment at `now` adds if the bucket has room:
    /// with a timer what has dripped in since the last one, without a timer
    /// the tokens of one period.
    pub open spec fn gain(self, now: Instant) -> nat {
        if self.auto_replenishment {
            clamp_u64(now@ - self.last_replenishment@) * self.tokens_per_period
        } else {
            self.tokens_per_period * self.period@
        }
    }

    /// The limiter after a replenishment at `now`: the gain is in the
    /// bucket as far as it has room, and the queue is served.
    pub open spec fn replenished(self, now: Instant) -> TokenBucketState {
        if self.turnstile.disposed || self.gain(now) == 0 {
            self
        } else {
            let filled = if self.drops + self.gain(now) > self.brim() {
                self.brim()
            } else {
                self.drops + self.gain(now)
            };
            let ready = whole_tokens(filled, self.period@);
            let left = (filled - self.turnstile.drain_spent(ready) * self.period@) as nat;
            TokenBucketState {
                drops: left,
                last_replenishment: if now@ >= self.last_replenishment@ {
                    now
                } else {
                    self.last_replenishment
                },
                turnstile: self.turnstile.drained(ready, false).settled(left == self.brim(), now),
                ..self
            }
        }
    }

    /// The limiter after a request for `n` tokens.
    pub open spec fn acquire(
        self,
        n: u32,
        waiting: bool,
        cancelled: bool,
        now: Instant,
    ) -> TokenBucketState {
        match self.decision(n, waiting, cancelled) {
            Decision::Grant => {
                let left = (self.drops - n * self.period@) as nat;
                TokenBucketState {
                    drops: left,
                    turnstile: self.turnstile.with_success().settled(left == self.brim(), now),
                    ..self
                }
            },
            Decision::Reject => TokenBucketState {
                turnstile: self.turnstile.with_failure(),
                ..self
            },
            Decision::Enqueue => {
                let leaving = self.turnstile.evicted_by(n);
                TokenBucketState {
                    turnstile: self.turnstile.enqueued(n).with_failed(
                        leaving,
                        self.parting_hints(leaving, self.turnstile.queued()),
                    ),
                    ..self
                }
            },
            _ => self,
        }
    }

    /// The limiter after a call of `try_replenish` at `now`.
    pub open spec fn try_replenished(self, now: Instant) -> TokenBucketState {
        if self.auto_replenishment {
            self
        } else {
            self.replenished(now)
        }
    }

    /// The limiter after the wait with the ticket was cancelled.
    pub open spec fn cancelled(self, ticket: u64, now: Instant) -> TokenBucketState {
        TokenBucketState {
            turnstile: self.turnstile.without(ticket).settled(self.drops == self.brim(), now),
            ..self
        }
    }

    /// The limiter after the waiter with the ticket went away.
    pub open spec fn abandoned(self, ticket: u64) -> TokenBucketState {
        TokenBucketState { turnstile: self.turnstile.with_abandoned(ticket), ..self }
    }

    /// The limiter disposed at `now`: every waiter is sent away with a lease
    /// that was not acquired.
    pub open spec fn disposed(self, now: Instant) -> TokenBucketState {
        TokenBucketState {
            turnstile: self.turnstile.shut().with_failed(
                self.turnstile.queue,
                self.parting_hints(self.turnstile.queue, self.turnstile.queued()),
            ).settled(self.drops == self.brim(), now),
            ..self
        }
    }

    /// The limiter after its completions were collected.
    pub open spec fn collected(self) -> TokenBucketState {
        TokenBucketState { turnstile: self.turnstile.collected(), ..self }
    }

    /// The limiter after one call of `try_replenish` at each of the given
    /// times.
    pub open spec fn try_replenished_at(self, times: Seq<Instant>) -> TokenBucketState
        decreases times.len(),
    {
        if times.len() == 0 {
            self
        } else {
            self.try_replenished_at(times.drop_last()).try_replenished(times.last())
        }
    }

    /// A request for as many tokens as the bucket holds is granted when
    /// the bucket is full.
    pub proof fn law_full_grant(self, waiting: bool, cancelled: bool)
        requires
            self.inv(),
            !self.turnstile.disposed,
            self.drops == self.brim(),
        ensures
            self.available() == self.turnstile.capacity,
            self.decision(self.turnstile.capacity as u32, waiting, cancelled) == Decision::Grant,
    {
        lemma_whole_tokens(self.drops, self.period@);
        let c = self.turnstile.capacity;
        assert(c * self.period@ <= self.drops);
        assert(!((c + 1) * self.period@ <= self.drops)) by {
            assert((c + 1) * self.period@ == c * self.period@ + self.period@) by (nonlinear_arith);
        }
    }

    /// Where a timer fills the bucket, `try_replenish` changes nothing.
    pub proof fn law_timer_replenishes(self, now: Instant)
        requires
            self.auto_replenishment,
        ensures
            self.try_replenished(now) == self,
    {
    }

    /// A replenishment keeps what holds of every limiter, adds no more than
    /// its gain, fills the bucket no further than the brim, and does not
    /// set the time of the last replenishment back.
    pub proof fn law_replenished(self, now: Instant)
        requires
            self.inv(),
        ensures
            self.replenished(now).inv(),
            self.replenished(now).drops <= self.drops + self.gain(now),
            self.replenished(now).drops <= self.brim(),
            self.replenished(now).last_replenishment@ >= self.last_replenishment@,
            self.replenished(now).auto_replenishment == self.auto_replenishment,
            self.replenished(now).tokens_per_period == self.tokens_per_period,
            self.replenished(now).period == self.period,
            self.replenished(now).turnstile.capacity == self.turnstile.capacity,
    {
        if !(self.turnstile.disposed || self.gain(now) == 0) {
            self.lemma_replenished(now);
        }
    }

    /// Where no timer fills the bucket, any number of calls of
    /// `try_replenish` adds no more than the tokens of as many periods, and
    /// fills the bucket no further than the brim.
    pub proof fn law_manual_replenishment(self, times: Seq<Instant>)
        requires
            self.inv(),
            !self.auto_replenishment,
        ensures
            self.try_replenished_at(times).inv(),
            !self.try_replenished_at(times).auto_replenishment,
            self.try_replenished_at(times).tokens_per_period == self.tokens_per_period,
            self.try_replenished_at(times).period == self.period,
            self.try_replenished_at(times).turnstile.capacity == self.turnstile.capacity,
            self.try_replenished_at(times).drops <= self.drops + times.len()
                * self.tokens_per_period * self.period@,
            self.try_replenished_at(times).drops <= self.brim(),
        decreases times.len(),
    {
        if times.len() > 0 {
            let before = self.try_replenished_at(times.drop_last());
            self.law_manual_replenishment(times.drop_last());
            before.law_replenished(times.last());
            let k = (times.len() - 1) as nat;
            let step = self.tokens_per_period * self.period@;
            let t = self.tokens_per_period;
            let p = self.period@;
            assert((k + 1) * step == k * step + step) by (nonlinear_arith);
            assert(k * t * p == k * step) by (nonlinear_arith)
                requires
                    step == t * p,
            ;
            assert((k + 1) * t * p == (k + 1) * step) by (nonlinear_arith)
                requires
                    step == t * p,
            ;
        }
    }

    /// What a replenishment that adds something leaves behind.
    proof fn lemma_replenished(self, now: Instant)
        requires
            self.inv(),
            !self.turnstile.disposed,
            self.gain(now) > 0,
        ensures
            self.replenished(now).inv(),
            self.replenished(now).drops <= self.drops + self.gain(now),
            self.replenished(now).drops <= self.brim(),
    {
        let filled = if self.drops + self.gain(now) > self.brim() {
            self.brim()
        } else {
            self.drops + self.gain(now)
        };
        let per_token = self.period@;
        let ready = whole_tokens(filled, per_token);
        let spent = self.turnstile.drain_spent(ready);
        lemma_whole_tokens(filled, per_token);
        self.turnstile.law_drain(ready, false);
        self.turnstile.lemma_drain_leaves_busy(ready, false);
        self.turnstile.lemma_drained_inv(ready, false);
        assert(spent * per_token <= ready * per_token) by (nonlinear_arith)
            requires
                spent <= ready,
        ;
        let left = (filled - spent * per_token) as nat;
        if self.turnstile.drained(ready, false).queue.len() > 0 {
            assert(ready - spent < self.turnstile.capacity);
            assert((ready + 1) * per_token - spent * per_token == (ready - spent + 1) * per_token)
                by (nonlinear_arith);
            assert((ready - spent + 1) * per_token <= self.turnstile.capacity * per_token)
                by (nonlinear_arith)
                requires
                    ready - spent + 1 <= self.turnstile.capacity,
            ;
        }
    }
}

/// A limiter that holds up to `token_limit` tokens and gains
/// `tokens_per_period` of them in each period.
pub struct TokenBucketRateLimiter {
    config: TokenBucketRateLimiterOptions,
    turnstile: Turnstile,
    drops: u128,
    last_replenishment: Instant,
}

impl View for TokenBucketRateLimiter {
    type V = TokenBucketState;

    closed spec fn view(&self) -> TokenBucketState {
        TokenBucketState {
            turnstile: self.turnstile@,
            drops: self.drops as nat,
            tokens_per_period: self.config.tokens_per_period as nat,
            period: self.config.replenishment_period,
            auto_replenishment: self.config.auto_replenishment,
            last_replenishment: self.last_replenishment,
        }
    }
}

/// The product of a `u32` and a `u64`, which a `u128` always holds.
fn widen_mul(a: u32, b: u64) -> (r: u128)
    ensures
        r == a as nat * b as nat,
        r <= 0xffff_ffff * 0xffff_ffff_ffff_ffff,
{
    assert(a as nat * b as nat <= 0xffff_ffff * 0xffff_ffff_ffff_ffff) by (nonlinear_arith)
        requires
            a <= 0xffff_ffff,
            b <= 0xffff_ffff_ffff_ffff,
    ;
    a as u128 * b as u128
}

impl TokenBucketRateLimiter {
    /// The options that the limiter was built from.
    pub closed spec fn options(&self) -> TokenBucketRateLimiterOptions {
        self.config
    }

    /// The limiter is sound: its state is as `TokenBucketState::inv` says
    /// and agrees with its options.
    pub closed spec fn well_formed(&self) -> bool {
        &&& self.turnstile.wf()
        &&& self@.inv()
        &&& self.config.valid()
        &&& self@.turnstile.capacity == self.config.token_limit
        &&& self@.turnstile.queue_limit == self.config.queue_limit
        &&& self@.turnstile.order == self.config.queue_processing_order
    }

    pub proof fn lemma_well_formed(&self)
        requires
            self.wf(),
        ensures
            self@.inv(),
            self.options().valid(),
            self@.turnstile.capacity == self.options().token_limit,
            self@.turnstile.queue_limit == self.options().queue_limit,
            self@.turnstile.order == self.options().queue_processing_order,
            self@.tokens_per_period == self.options().tokens_per_period,
            self@.period == self.options().replenishment_period,
            self@.auto_replenishment == self.options().auto_replenishment,
    {
    }

    /// A limiter with a full bucket, idle since `now`.
    pub fn new(options: TokenBucketRateLimiterOptions, now: Instant) -> (r: Result<
        TokenBucketRateLimiter,
        RateLimitError,
    >)
        ensures
            match r {
                Ok(limiter) => {
                    &&& options.valid()
                    &&& limiter.wf()
                    &&& limiter.options() == options
                    &&& limiter@ == TokenBucketState::initial(options, now)
                },
                Err(e) => !options.valid() && e.is_invalid(options.fault()),
            },
    {
        if let Some(e) = options.check() {
            return Err(e);
        }
        let turnstile = Turnstile::new(
            options.token_limit,
            options.queue_limit,
            options.queue_processing_order,
            now,
        );
        proof {
            turnstile.lemma_wf();
        }
        let drops = widen_mul(options.token_limit, options.replenishment_period.as_nanos());
        Ok(TokenBucketRateLimiter { config: options, turnstile, drops, last_replenishment: now })
    }

    pub fn config(&self) -> (options: TokenBucketRateLimiterOptions)
        ensures
            options == self.options(),
    {
        self.config
    }

    /// The whole tokens in the bucket.
    pub fn available_tokens(&self) -> (tokens: u32)
        requires
            self.wf(),
        ensures
            tokens == self@.available(),
            tokens <= self@.turnstile.capacity,
    {
        let per_token = self.config.replenishment_period.as_nanos() as u128;
        proof {
            lemma_whole_tokens(self.drops as nat, per_token as nat);
            let q = self@.available();
            if q > self@.turnstile.capacity {
                assert(q * per_token >= (self@.turnstile.capacity + 1) * per_token)
                    by (nonlinear_arith)
                    requires
                        q >= self@.turnstile.capacity + 1,
                ;
                assert((self@.turnstile.capacity + 1) * per_token == self@.turnstile.capacity
                    * per_token + per_token) by (nonlinear_arith);
            }
        }
        (self.drops / per_token) as u32
    }

    /// How long a request for `token_count` tokens that is turned down
    /// should wait while waiters ask for `queued` tokens.
    pub fn calculate_retry_after(&self, token_count: u32, queued: u32) -> (hint: Duration)
        requires
            self.wf(),
        ensures
            hint == self@.retry_after(token_count, queued as nat),
    {
        let period = self.config.replenishment_period;
        let per_token = period.as_nanos();
        let wanted = widen_mul(token_count, per_token);
        let missing = if wanted > self.drops {
            wanted - self.drops
        } else {
            0
        };
        let shortfall = missing + widen_mul(queued, per_token);
        let per_period = widen_mul(self.config.tokens_per_period, per_token);
        assert(per_period >= 1) by (nonlinear_arith)
            requires
                per_period == self.config.tokens_per_period as nat * per_token as nat,
                self.config.tokens_per_period >= 1,
                per_token >= 1,
        ;
        assert(self@.shortfall(token_count, queued as nat) == shortfall);
        let periods = if shortfall <= per_period {
            1
        } else {
            (shortfall + per_period - 1) / per_period
        };
        assert(periods == periods_for(shortfall as nat, per_period as nat));
        if periods > u64::MAX as u128 {
            assert(periods * per_token > u64::MAX) by (nonlinear_arith)
                requires
                    periods > u64::MAX,
                    per_token >= 1,
            ;
            Duration::from_nanos(u64::MAX)
        } else {
            assert(periods * per_token == per_token * periods) by (nonlinear_arith);
            period.saturating_mul(periods as u64)
        }
    }

    /// The hints for waiters that left the queue one after the other.
    fn parting_hints(&self, leaving: &Vec<Waiter>, queued: u32) -> (hints: Vec<Option<Duration>>)
        requires
            self.wf(),
            total_permits(leaving@) <= queued,
        ensures
            hints@ == self@.parting_hints(leaving@, queued as nat),
    {
        let mut hints: Vec<Option<Duration>> = Vec::new();
        let mut behind = queued;
        let mut i: usize = 0;
        proof {
            assert(leaving@.subrange(0, 0) == Seq::<Waiter>::empty());
        }
        while i < leaving.len()
            invariant
                self.wf(),
                i <= leaving.len(),
                total_permits(leaving@) <= queued,
                behind == queued - total_permits(leaving@.subrange(0, i as int)),
                hints@ == self@.parting_hints(leaving@, queued as nat).subrange(0, i as int),
            decreases leaving.len() - i,
        {
            proof {
                let upto = leaving@.subrange(0, i + 1);
                assert(upto.drop_last() == leaving@.subrange(0, i as int));
                lemma_total_subrange(leaving@, 0, i + 1);
            }
            behind = behind - leaving[i].permits;
            let hint = self.calculate_retry_after(leaving[i].permits, behind);
            hints.push(Some(hint));
            i += 1;
            assert(hints@ == self@.parting_hints(leaving@, queued as nat).subrange(0, i as int));
        }
        assert(self@.parting_hints(leaving@, queued as nat).subrange(0, i as int)
            == self@.parting_hints(leaving@, queued as nat));
        hints
    }

    /// Fills the bucket at `now` and serves the queue. With a timer the
    /// gain is what has dripped in since the last replenishment, without a
    /// timer the tokens of one period. A disposed limiter stays as it is.
    pub fn replenish(&mut self, now: Instant)
        requires
            old(self).wf(),
        ensures
            final(self).wf(),
            final(self).options() == old(self).options(),
            old(self)@.turnstile.precedes(final(self)@.turnstile),
            final(self)@ == old(self)@.replenished(now),
    {
        proof {
            self.turnstile.lemma_wf();
        }
        if self.turnstile.is_disposed() {
            return ;
        }
        let per_token = self.config.replenishment_period.as_nanos();
        let gain = if self.config.auto_replenishment {
            let elapsed = now.saturating_duration_since(self.last_replenishment);
            let gain = widen_mul(self.config.tokens_per_period, elapsed.as_nanos());
            assert(gain == elapsed@ * self.config.tokens_per_period as nat) by (nonlinear_arith)
                requires
                    gain == self.config.tokens_per_period as nat * elapsed@,
            ;
            gain
        } else {
            widen_mul(self.config.tokens_per_period, per_token)
        };
        if gain == 0 {
            return ;
        }
        let brim = widen_mul(self.config.token_limit, per_token);
        let filled = if self.drops + gain > brim {
            brim
        } else {
            self.drops + gain
        };
        let ready = (filled / per_token as u128) as u32;
        proof {
            self@.lemma_replenished(now);
            lemma_whole_tokens(filled as nat, per_token as nat);
            let q = whole_tokens(filled as nat, per_token as nat);
            if q > self@.turnstile.capacity {
                assert(q * per_token >= (self@.turnstile.capacity + 1) * per_token)
                    by (nonlinear_arith)
                    requires
                        q >= self@.turnstile.capacity + 1,
                ;
                assert((self@.turnstile.capacity + 1) * per_token == self@.turnstile.capacity
                    * per_token + per_token) by (nonlinear_arith);
            }
        }
        let spent = self.turnstile.drain(ready, false);
        let used = widen_mul(spent, per_token);
        proof {
            assert(spent * per_token <= ready * per_token) by (nonlinear_arith)
                requires
                    spent <= ready,
            ;
        }
        self.drops = filled - used;
        self.last_replenishment = self.last_replenishment.latest(now);
        self.turnstile.settle(self.drops == brim, now);
        proof {
            self.turnstile.lemma_wf();
        }
    }

    /// The step that both forms of acquisition share.
    fn acquire(&mut self, n: u32, waiting: bool, cancelled: bool, now: Instant) -> (r: Result<
        Acquisition,
        RateLimitError,
    >)
        requires
            old(self).wf(),
        ensures
            final(self).wf(),
            final(self).options() == old(self).options(),
            old(self)@.turnstile.precedes(final(self)@.turnstile),
            final(self)@ == old(self)@.acquire(n, waiting, cancelled, now),
            answers_waiting(
                r,
                old(self)@.decision(n, waiting, cancelled),
                n,
                old(self)@.turnstile.capacity,
                None,
                Some(old(self)@.retry_after(n, old(self)@.turnstile.queued())),
                old(self)@.turnstile.next_ticket,
            ),
    {
        proof {
            self.turnstile.lemma_wf();
        }
        let per_token = self.config.replenishment_period.as_nanos();
        let brim = widen_mul(self.config.token_limit, per_token);
        let available = self.available_tokens();
        proof {
            lemma_whole_tokens(self.drops as nat, per_token as nat);
        }
        let decision = self.turnstile.decide(n, available, self.drops > 0, waiting, cancelled);
        match decision {
            Decision::Exceeded => Err(RateLimitError::PermitCountExceeded(
                n,
                self.config.token_limit,
            )),
            Decision::Disposed => Err(RateLimitError::Disposed),
            Decision::Cancelled => Err(RateLimitError::Cancelled),
            Decision::Grant => {
                let used = widen_mul(n, per_token);
                proof {
                    if n > 0 {
                        assert(n as nat * per_token as nat <= self.drops);
                        assert(n as nat * per_token as nat >= 1) by (nonlinear_arith)
                            requires
                                n >= 1,
                                per_token >= 1,
                        ;
                    } else {
                        assert(0 * per_token as nat == 0) by (nonlinear_arith);
                    }
                }
                self.drops = self.drops - used;
                self.turnstile.count_success();
                self.turnstile.settle(self.drops == brim, now);
                proof {
                    self.turnstile.lemma_wf();
                }
                Ok(Acquisition::Ready(RateLimitLease::success()))
            },
            Decision::Reject => {
                let hint = self.calculate_retry_after(n, self.turnstile.queued_permits());
                self.turnstile.count_failure();
                proof {
                    self.turnstile.lemma_wf();
                }
                Ok(Acquisition::Ready(RateLimitLease::failed(Some(hint))))
            },
            Decision::Enqueue => {
                let queued = self.turnstile.queued_permits();
                proof {
                    lemma_eviction_count(
                        self@.turnstile.queue,
                        n as nat,
                        self@.turnstile.queue_limit,
                    );
                    lemma_total_subrange(
                        self@.turnstile.queue,
                        0,
                        crate::queue::eviction_count(
                            self@.turnstile.queue,
                            n as nat,
                            self@.turnstile.queue_limit,
                        ) as int,
                    );
                    if n as nat * per_token as nat > self.drops {
                    } else {
                        assert(n <= available);
                    }
                    assert(self.drops < brim);
                }
                let (ticket, leaving) = self.turnstile.enqueue(n);
                proof {
                    self.turnstile.lemma_wf();
                }
                let hints = self.parting_hints(&leaving, queued);
                proof {
                    assert(hints@ =~= old(self)@.parting_hints(leaving@, queued as nat));
                }
                self.turnstile.fail_waiters(&leaving, &hints);
                proof {
                    self.turnstile.lemma_wf();
                }
                Ok(Acquisition::Pending(ticket))
            },
        }
    }

    /// Releases a lease. Tokens do not come back, so the limiter stays as
    /// it is; only the cleanup leaves the lease.
    pub fn release(&mut self, lease: &mut RateLimitLease, now: Instant)
        requires
            old(self).wf(),
        ensures
            final(self).wf(),
            final(self).options() == old(self).options(),
            old(self)@.turnstile.precedes(final(self)@.turnstile),
            final(self)@ == old(self)@,
            final(lease).cleanup() is None,
            final(lease).acquired() == old(lease).acquired(),
            final(lease).metadata() == old(lease).metadata(),
    {
        let _ = lease.take_cleanup();
    }

    /// Cancels the wait with the ticket and says whether it was still
    /// waiting.
    pub fn cancel(&mut self, ticket: u64, now: Instant) -> (found: bool)
        requires
            old(self).wf(),
        ensures
            final(self).wf(),
            final(self).options() == old(self).options(),
            old(self)@.turnstile.precedes(final(self)@.turnstile),
            final(self)@ == old(self)@.cancelled(ticket, now),
            found == old(self)@.turnstile.holds(ticket),
    {
        let brim = widen_mul(self.config.token_limit, self.config.replenishment_period.as_nanos());
        let found = self.turnstile.cancel(ticket);
        self.turnstile.settle(self.drops == brim, now);
        proof {
            self.turnstile.lemma_wf();
        }
        found
    }

    /// Notes that nobody waits for the outcome of the wait with the ticket
    /// any more, and says whether it was still waiting.
    pub fn abandon(&mut self, ticket: u64) -> (found: bool)
        requires
            old(self).wf(),
        ensures
            final(self).wf(),
            final(self).options() == old(self).options(),
            old(self)@.turnstile.precedes(final(self)@.turnstile),
            final(self)@ == old(self)@.abandoned(ticket),
            found == old(self)@.turnstile.holds(ticket),
    {
        let found = self.turnstile.abandon(ticket);
        proof {
            self.turnstile.lemma_wf();
        }
        found
    }

    /// Disposes the limiter. Every waiter is sent away with a lease that was
    /// not acquired, and from now on requests are errors.
    pub fn dispose(&mut self, now: Instant)
        requires
            old(self).wf(),
        ensures
            final(self).wf(),
            final(self).options() == old(self).options(),
            old(self)@.turnstile.precedes(final(self)@.turnstile),
            final(self)@ == old(self)@.disposed(now),
    {
        let brim = widen_mul(self.config.token_limit, self.config.replenishment_period.as_nanos());
        let queued = self.turnstile.queued_permits();
        let waiters = self.turnstile.shut();
        proof {
            self.turnstile.lemma_wf();
        }
        let hints = self.parting_hints(&waiters, queued);
        proof {
            assert(hints@ =~= old(self)@.parting_hints(waiters@, queued as nat));
        }
        self.turnstile.fail_waiters(&waiters, &hints);
        self.turnstile.settle(self.drops == brim, now);
        proof {
            self.turnstile.lemma_wf();
        }
    }

    /// Hands over the waits that ended since the last call, the earliest
    /// first.
    pub fn take_completions(&mut self) -> (completions: Vec<Completion>)
        requires
            old(self).wf(),
        ensures
            final(self).wf(),
            final(self).options() == old(self).options(),
            old(self)@.turnstile.precedes(final(self)@.turnstile),
            final(self)@ == old(self)@.collected(),
            completions@ == old(self)@.turnstile.completions,
    {
        let completions = self.turnstile.take_completions();
        proof {
            self.turnstile.lemma_wf();
        }
        completions
    }
}

impl RateLimiter for TokenBucketRateLimiter {
    open spec fn wf(&self) -> bool {
        self.well_formed()
    }

    open spec fn turnstile(&self) -> TurnstileState {
        self@.turnstile
    }

    fn attempt_acquire(&mut self, permit_count: u32, now: Instant) -> (r: Result<
        RateLimitLease,
        RateLimitError,
    >)
        ensures
            final(self).options() == old(self).options(),
            old(self)@.turnstile.precedes(final(self)@.turnstile),
            final(self)@ == old(self)@.acquire(permit_count, false, false, now),
            answers(
                r,
                old(self)@.decision(permit_count, false, false),
                permit_count,
                old(self)@.turnstile.capacity,
                None,
                Some(old(self)@.retry_after(permit_count, old(self)@.turnstile.queued())),
            ),
    {
        proof {
            self.turnstile.lemma_wf();
        }
        match self.acquire(permit_count, false, false, now) {
            Ok(Acquisition::Ready(lease)) => Ok(lease),
            // A request that is not ready to wait never joins the queue.
            Ok(Acquisition::Pending(_)) => Err(RateLimitError::QueueLimitExceeded),
            Err(e) => Err(e),
        }
    }

    fn acquire_async(&mut self, permit_count: u32, cancelled: bool, now: Instant) -> (r: Result<
        Acquisition,
        RateLimitError,
    >)
        ensures
            final(self).options() == old(self).options(),
            old(self)@.turnstile.precedes(final(self)@.turnstile),
            final(self)@ == old(self)@.acquire(permit_count, true, cancelled, now),
            answers_waiting(
                r,
                old(self)@.decision(permit_count, true, cancelled),
                permit_count,
                old(self)@.turnstile.capacity,
                None,
                Some(old(self)@.retry_after(permit_count, old(self)@.turnstile.queued())),
                old(self)@.turnstile.next_ticket,
            ),
    {
        proof {
            self.turnstile.lemma_wf();
            lemma_total_nothing(self@.turnstile.queue);
            lemma_eviction_count(
                self@.turnstile.queue,
                permit_count as nat,
                self@.turnstile.queue_limit,
            );
        }
        self.acquire(permit_count, true, cancelled, now)
    }

    fn get_statistics(&self, now: Instant) -> (stats: RateLimiterStatistics)
        ensures
            stats.current_available_permits == self@.available(),
    {
        self.turnstile.statistics(self.available_tokens())
    }

    fn idle_duration(&self, now: Instant) -> (idle: Option<Duration>)
        ensures
            idle == idle_for(self@.turnstile.idle_since, now),
    {
        self.turnstile.idle_duration(now)
    }
}

impl ReplenishingRateLimiter for TokenBucketRateLimiter {
    open spec fn auto_replenishing(&self) -> bool {
        self@.auto_replenishment
    }

    fn is_auto_replenishing(&self) -> (auto: bool) {
        self.config.auto_replenishment
    }

    fn replenishment_period(&self) -> (period: Duration)
        ensures
            period == self@.period,
    {
        self.config.replenishment_period
    }

    fn try_replenish(&mut self, now: Instant) -> (replenished: bool)
        ensures
            final(self).options() == old(self).options(),
            old(self)@.turnstile.precedes(final(self)@.turnstile),
            final(self)@ == old(self)@.try_replenished(now),
            replenished == !old(self)@.auto_replenishment,
    {
        if self.config.auto_replenishment {
            false
        } else {
            self.replenish(now);
            true
        }
    }
}

} // verus!
