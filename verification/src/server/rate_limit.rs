//! A simpler adaptive limiter, without reservations: a worker that finds no burst permit starts
//! after the delay.
//!
//! Points and spans of time are numbers of nanoseconds, as in [`crate::rate_limit`].
use crate::rate_limit::{
    self, BASE_COOLDOWN_SECS, BASE_DELAY_MS, BURST_CAPACITY, BURST_REPLENISH_IDLE_SECS,
    CONSECUTIVE_SUCCESS_RELAX, DELAY_STEP_DOWN_MS, DELAY_STEP_UP_MS, MAX_COOLDOWN_SECS,
    MAX_DELAY_MS, NANOS_PER_MILLI, NANOS_PER_SEC, RECOVERY_SECS,
};
use vstd::prelude::*;

verus! {

/// Counters and pacing parameters, as reported to the user.
#[derive(Debug, Clone, Copy)]
pub struct RateLimitStatsSnapshot {
    pub total_chapters: usize,
    pub total_blocks_hit: usize,
    pub current_burst_count: usize,
    pub min_burst_before_block: Option<usize>,
    pub max_burst_achieved: usize,
    pub current_delay_ms: u64,
    pub current_cooldown_secs: u64,
}

/// Everything the limiter remembers.
pub struct RateLimiterInner {
    /// Zero-delay permits left in the current burst.
    pub burst_tokens: usize,
    /// When a permit was last granted outside a cooldown.
    pub last_permit_time: u128,
    /// Until when all downloads pause, while a block is in force.
    pub cooldown_until: Option<u128>,
    /// How long a worker waits that finds no burst permit.
    pub current_delay: u128,
    /// Length of the cooldown that the last block brought.
    pub current_cooldown: u128,
    /// Successes since the last relaxation or block.
    pub consecutive_successes: usize,
    /// Permits since the last idle reset or block.
    pub current_burst_count: usize,
    /// Chapters downloaded over the life of the limiter.
    pub total_chapters: usize,
    /// Blocks over the life of the limiter.
    pub total_blocks_hit: usize,
    /// Smallest positive number of permits that was followed by a block.
    pub min_burst_before_block: Option<usize>,
    /// Largest number of permits at the time of a success.
    pub max_burst_achieved: usize,
    /// When the most recent block came.
    pub last_block_at: Option<u128>,
}

/// What a worker that asks for a permit is told.
#[derive(Debug, Clone, Copy, PartialEq, Eq, Structural)]
pub enum PaceStep {
    /// The permit is granted: start the download after that long.
    Start { after: u128 },
    /// A cooldown is in force: ask again after that long.
    Ask { after: u128 },
}

impl RateLimiterInner {
    /// What every reachable state satisfies.
    pub open spec fn wf(self) -> bool {
        &&& self.burst_tokens <= BURST_CAPACITY
        &&& rate_limit::ms(BASE_DELAY_MS) <= self.current_delay <= rate_limit::ms(
            MAX_DELAY_MS,
        )
        &&& rate_limit::secs(BASE_COOLDOWN_SECS) <= self.current_cooldown
            <= rate_limit::secs(MAX_COOLDOWN_SECS)
        &&& self.consecutive_successes < CONSECUTIVE_SUCCESS_RELAX
        &&& self.min_burst_before_block matches Some(m) ==> 1 <= m
        &&& self.last_block_at is Some ==> self.total_blocks_hit > 0
    }

    /// The state at the start, at time `now`.
    pub open spec fn initial(now: u128) -> RateLimiterInner {
        RateLimiterInner {
            burst_tokens: BURST_CAPACITY,
            last_permit_time: now,
            cooldown_until: None,
            current_delay: rate_limit::ms(BASE_DELAY_MS) as u128,
            current_cooldown: rate_limit::secs(BASE_COOLDOWN_SECS) as u128,
            consecutive_successes: 0,
            current_burst_count: 0,
            total_chapters: 0,
            total_blocks_hit: 0,
            min_burst_before_block: None,
            max_burst_achieved: 0,
            last_block_at: None,
        }
    }

    /// The burst allowance restored after an idle period.
    pub open spec fn replenished(self, now: u128) -> RateLimiterInner {
        if rate_limit::since(now, self.last_permit_time) >= rate_limit::secs(
            BURST_REPLENISH_IDLE_SECS,
        ) {
            RateLimiterInner { burst_tokens: BURST_CAPACITY, current_burst_count: 0, ..self }
        } else {
            self
        }
    }

    /// The state after a permit request at `now`.
    pub open spec fn after_request(self, now: u128) -> RateLimiterInner {
        match self.cooldown_until {
            Some(until) => if now < until {
                self
            } else {
                RateLimiterInner { cooldown_until: None, ..self }
            },
            None => {
                let ready = self.replenished(now);
                RateLimiterInner {
                    last_permit_time: now,
                    burst_tokens: if ready.burst_tokens > 0 {
                        (ready.burst_tokens - 1) as usize
                    } else {
                        0
                    },
                    current_burst_count: (ready.current_burst_count + 1) as usize,
                    ..ready
                }
            },
        }
    }

    /// The answer to a permit request at `now`: during a cooldown the worker has to ask again; once
    /// it is over, and with a burst permit, the download starts at once; otherwise it starts after
    /// the delay.
    pub open spec fn answer(self, now: u128) -> PaceStep {
        match self.cooldown_until {
            Some(until) => if now < until {
                PaceStep::Ask { after: (until - now) as u128 }
            } else {
                PaceStep::Start { after: 0 }
            },
            None => if self.replenished(now).burst_tokens > 0 {
                PaceStep::Start { after: 0 }
            } else {
                PaceStep::Start { after: self.current_delay }
            },
        }
    }

    /// The state after a chapter was downloaded.
    pub open spec fn after_success(self) -> RateLimiterInner {
        let relax = self.consecutive_successes + 1 >= CONSECUTIVE_SUCCESS_RELAX;
        RateLimiterInner {
            total_chapters: (self.total_chapters + 1) as usize,
            consecutive_successes: if relax {
                0
            } else {
                (self.consecutive_successes + 1) as usize
            },
            max_burst_achieved: rate_limit::larger(
                self.max_burst_achieved as int,
                self.current_burst_count as int,
            ) as usize,
            current_delay: if relax {
                rate_limit::larger(
                    self.current_delay - rate_limit::ms(DELAY_STEP_DOWN_MS),
                    rate_limit::ms(BASE_DELAY_MS),
                ) as u128
            } else {
                self.current_delay
            },
            ..self
        }
    }

    /// The cooldown in whole seconds that a block at `now` brings: half as long again as the last
    /// one, within the limits, when the last block is recent.
    pub open spec fn block_cooldown_secs(self, now: u128) -> int {
        if self.last_block_at matches Some(t) && rate_limit::since(now, t)
            < rate_limit::secs(RECOVERY_SECS) {
            rate_limit::smaller(
                rate_limit::larger(
                    (self.current_cooldown / NANOS_PER_SEC) * 3 / 2,
                    BASE_COOLDOWN_SECS as int,
                ),
                MAX_COOLDOWN_SECS as int,
            )
        } else {
            BASE_COOLDOWN_SECS as int
        }
    }

    /// The state after a block at `now`.
    pub open spec fn after_block(self, now: u128) -> RateLimiterInner {
        let cooldown = self.block_cooldown_secs(now) * NANOS_PER_SEC;
        RateLimiterInner {
            total_blocks_hit: (self.total_blocks_hit + 1) as usize,
            min_burst_before_block: rate_limit::min_positive(
                self.min_burst_before_block,
                self.current_burst_count,
            ),
            current_cooldown: cooldown as u128,
            last_block_at: Some(now),
            cooldown_until: Some((now + cooldown) as u128),
            current_delay: rate_limit::smaller(
                self.current_delay + rate_limit::ms(DELAY_STEP_UP_MS),
                rate_limit::ms(MAX_DELAY_MS),
            ) as u128,
            burst_tokens: 0,
            consecutive_successes: 0,
            current_burst_count: 0,
            ..self
        }
    }
}

/// Paces chapter downloads without a queue.
pub struct AdaptiveRateLimiter {
    inner: RateLimiterInner,
}

impl View for AdaptiveRateLimiter {
    type V = RateLimiterInner;

    closed spec fn view(&self) -> RateLimiterInner {
        self.inner
    }
}

impl AdaptiveRateLimiter {
    /// A limiter with a full burst allowance.
    pub fn new(now: u128) -> (limiter: Self)
        ensures
            limiter@ == RateLimiterInner::initial(now),
            limiter@.wf(),
    {
        AdaptiveRateLimiter {
            inner: RateLimiterInner {
                burst_tokens: BURST_CAPACITY,
                last_permit_time: now,
                cooldown_until: None,
                current_delay: BASE_DELAY_MS as u128 * NANOS_PER_MILLI,
                current_cooldown: BASE_COOLDOWN_SECS as u128 * NANOS_PER_SEC,
                consecutive_successes: 0,
                current_burst_count: 0,
                total_chapters: 0,
                total_blocks_hit: 0,
                min_burst_before_block: None,
                max_burst_achieved: 0,
                last_block_at: None,
            },
        }
    }

    /// One permit request, before a chapter download. The worker waits as it is told, and then
    /// starts or, where a cooldown was in force, asks again.
    pub fn wait_for_chapter_permit(&mut self, now: u128) -> (step: PaceStep)
        requires
            old(self)@.wf(),
            old(self)@.current_burst_count < usize::MAX,
        ensures
            final(self)@ == old(self)@.after_request(now),
            final(self)@.wf(),
            step == old(self)@.answer(now),
    {
        if let Some(until) = self.inner.cooldown_until {
            if now < until {
                return PaceStep::Ask { after: until - now };
            }
            self.inner.cooldown_until = None;
            return PaceStep::Start { after: 0 };
        }
        let idle = if now >= self.inner.last_permit_time {
            now - self.inner.last_permit_time
        } else {
            0
        };
        if idle >= BURST_REPLENISH_IDLE_SECS as u128 * NANOS_PER_SEC {
            self.inner.burst_tokens = BURST_CAPACITY;
            self.inner.current_burst_count = 0;
        }
        self.inner.last_permit_time = now;
        self.inner.current_burst_count = self.inner.current_burst_count + 1;
        if self.inner.burst_tokens > 0 {
            self.inner.burst_tokens = self.inner.burst_tokens - 1;
            return PaceStep::Start { after: 0 };
        }
        PaceStep::Start { after: self.inner.current_delay }
    }

    /// Records a downloaded chapter; every so many successes in a row the delay is relaxed.
    pub fn on_chapter_success(&mut self)
        requires
            old(self)@.wf(),
            old(self)@.total_chapters < usize::MAX,
        ensures
            final(self)@ == old(self)@.after_success(),
            final(self)@.wf(),
    {
        self.inner.total_chapters = self.inner.total_chapters + 1;
        self.inner.consecutive_successes = self.inner.consecutive_successes + 1;
        if self.inner.current_burst_count > self.inner.max_burst_achieved {
            self.inner.max_burst_achieved = self.inner.current_burst_count;
        }
        if self.inner.consecutive_successes >= CONSECUTIVE_SUCCESS_RELAX {
            self.inner.consecutive_successes = 0;
            let min_delay = BASE_DELAY_MS as u128 * NANOS_PER_MILLI;
            let relaxed = self.inner.current_delay - DELAY_STEP_DOWN_MS as u128 * NANOS_PER_MILLI;
            self.inner.current_delay = if relaxed >= min_delay {
                relaxed
            } else {
                min_delay
            };
        }
    }

    /// Records a block at `now` and returns the cooldown that it brings.
    pub fn on_rate_limit_hit(&mut self, now: u128) -> (cooldown: u128)
        requires
            old(self)@.wf(),
            old(self)@.total_blocks_hit < usize::MAX,
            now + rate_limit::secs(MAX_COOLDOWN_SECS) <= u128::MAX,
        ensures
            final(self)@ == old(self)@.after_block(now),
            final(self)@.wf(),
            cooldown == final(self)@.current_cooldown,
    {
        let mut seconds: u64 = BASE_COOLDOWN_SECS;
        if let Some(t) = self.inner.last_block_at {
            let gap = if now >= t {
                now - t
            } else {
                0
            };
            if gap < RECOVERY_SECS as u128 * NANOS_PER_SEC {
                let scaled = (self.inner.current_cooldown / NANOS_PER_SEC) as u64 * 3 / 2;
                seconds = if scaled > MAX_COOLDOWN_SECS {
                    MAX_COOLDOWN_SECS
                } else if scaled < BASE_COOLDOWN_SECS {
                    BASE_COOLDOWN_SECS
                } else {
                    scaled
                };
            }
        }
        let burst = self.inner.current_burst_count;
        self.inner.total_blocks_hit = self.inner.total_blocks_hit + 1;
        rate_limit::update_min(&mut self.inner.min_burst_before_block, burst);
        let cooldown = seconds as u128 * NANOS_PER_SEC;
        self.inner.current_cooldown = cooldown;
        self.inner.last_block_at = Some(now);
        self.inner.cooldown_until = Some(now + cooldown);
        let raised = self.inner.current_delay + DELAY_STEP_UP_MS as u128 * NANOS_PER_MILLI;
        let max_delay = MAX_DELAY_MS as u128 * NANOS_PER_MILLI;
        self.inner.current_delay = if raised <= max_delay {
            raised
        } else {
            max_delay
        };
        self.inner.burst_tokens = 0;
        self.inner.consecutive_successes = 0;
        self.inner.current_burst_count = 0;
        cooldown
    }

    /// The counters and pacing parameters as they stand.
    pub fn get_stats(&self) -> (stats: RateLimitStatsSnapshot)
        requires
            self@.wf(),
        ensures
            stats.total_chapters == self@.total_chapters,
            stats.total_blocks_hit == self@.total_blocks_hit,
            stats.current_burst_count == self@.current_burst_count,
            stats.min_burst_before_block == self@.min_burst_before_block,
            stats.max_burst_achieved == self@.max_burst_achieved,
            stats.current_delay_ms == self@.current_delay / NANOS_PER_MILLI,
            stats.current_cooldown_secs == self@.current_cooldown / NANOS_PER_SEC,
    {
        RateLimitStatsSnapshot {
            total_chapters: self.inner.total_chapters,
            total_blocks_hit: self.inner.total_blocks_hit,
            current_burst_count: self.inner.current_burst_count,
            min_burst_before_block: self.inner.min_burst_before_block,
            max_burst_achieved: self.inner.max_burst_achieved,
            current_delay_ms: (self.inner.current_delay / NANOS_PER_MILLI) as u64,
            current_cooldown_secs: (self.inner.current_cooldown / NANOS_PER_SEC) as u64,
        }
    }
}

/// Outside a cooldown every request is granted, at once while burst permits are left and after one
/// delay otherwise, and is counted once.
pub proof fn law_every_request_is_granted(s: RateLimiterInner, now: u128)
    requires
        s.wf(),
        s.current_burst_count < usize::MAX,
        s.cooldown_until is None,
    ensures
        s.answer(now) == (PaceStep::Start {
            after: if s.replenished(now).burst_tokens > 0 {
                0
            } else {
                s.current_delay
            },
        }),
        s.after_request(now).current_burst_count == s.replenished(now).current_burst_count + 1,
        s.after_request(now).last_permit_time == now,
{
}

/// A cooldown that is over is lifted by the next request, which is granted at once.
pub proof fn law_cooldown_ends(s: RateLimiterInner, now: u128)
    requires
        s.wf(),
        s.cooldown_until matches Some(until) && now >= until,
    ensures
        s.answer(now) == (PaceStep::Start { after: 0 }),
        s.after_request(now).cooldown_until is None,
{
}

/// While a cooldown is in force nothing is granted and nothing changes.
pub proof fn law_cooldown_holds(s: RateLimiterInner, now: u128)
    requires
        s.wf(),
        s.cooldown_until matches Some(until) && now < until,
    ensures
        s.after_request(now) == s,
        s.answer(now) == (PaceStep::Ask { after: (s.cooldown_until->0 - now) as u128 }),
{
}

/// A block takes the burst allowance away, never shortens the delay, and starts a cooldown
/// between the base and the largest one.
pub proof fn law_block_slows_down(s: RateLimiterInner, now: u128)
    requires
        s.wf(),
        s.total_blocks_hit < usize::MAX,
        now + rate_limit::secs(MAX_COOLDOWN_SECS) <= u128::MAX,
    ensures
        s.after_block(now).burst_tokens == 0,
        s.after_block(now).current_delay >= s.current_delay,
        rate_limit::secs(BASE_COOLDOWN_SECS) <= s.after_block(now).current_cooldown
            <= rate_limit::secs(MAX_COOLDOWN_SECS),
        s.after_block(now).cooldown_until == Some(
            (now + s.after_block(now).current_cooldown) as u128,
        ),
{
}

/// What a request is told, in numbers: outside a cooldown the download starts at once while one of
/// ten burst permits is left, or where no permit was asked for within fifteen seconds; otherwise it
/// starts after the delay.
pub proof fn law_what_a_request_is_told(s: RateLimiterInner, now: u128)
    requires
        s.wf(),
        s.current_burst_count < usize::MAX,
        s.cooldown_until is None,
    ensures
        ({
            let after = s.after_request(now);
            let idle = now - s.last_permit_time >= 15_000_000_000;
            &&& idle ==> s.answer(now) == (PaceStep::Start { after: 0 }) && after.burst_tokens == 9
                && after.current_burst_count == 1
            &&& !idle && s.burst_tokens > 0 ==> s.answer(now) == (PaceStep::Start { after: 0 })
                && after.burst_tokens == s.burst_tokens - 1
            &&& !idle && s.burst_tokens == 0 ==> s.answer(now) == (PaceStep::Start {
                after: s.current_delay,
            }) && after.burst_tokens == 0
            &&& !idle ==> after.current_burst_count == s.current_burst_count + 1
            &&& after == (RateLimiterInner {
                last_permit_time: now,
                burst_tokens: after.burst_tokens,
                current_burst_count: after.current_burst_count,
                ..s
            })
        }),
{
}

/// The request that finds a cooldown at its end lifts it and changes nothing else.
pub proof fn law_lifted_cooldown_changes_nothing_else(s: RateLimiterInner, now: u128)
    requires
        s.wf(),
        s.cooldown_until matches Some(until) && now >= until,
    ensures
        s.after_request(now) == (RateLimiterInner { cooldown_until: None, ..s }),
{
}

/// A downloaded chapter counts, and the twentieth in a row takes 25 ms off the delay, down to 200 ms.
/// The largest number of permits so far is kept; permits and blocks are left alone.
pub proof fn law_successes_shorten_the_delay(s: RateLimiterInner)
    requires
        s.wf(),
        s.total_chapters < usize::MAX,
    ensures
        ({
            let after = s.after_success();
            let relaxes = s.consecutive_successes == 19;
            &&& after.total_chapters == s.total_chapters + 1
            &&& relaxes ==> after.consecutive_successes == 0
            &&& !relaxes ==> after.consecutive_successes == s.consecutive_successes + 1
                && after.current_delay == s.current_delay
            &&& relaxes && s.current_delay >= 225_000_000 ==> after.current_delay == s.current_delay
                - 25_000_000
            &&& relaxes && s.current_delay < 225_000_000 ==> after.current_delay == 200_000_000
            &&& s.current_burst_count > s.max_burst_achieved ==> after.max_burst_achieved
                == s.current_burst_count
            &&& s.current_burst_count <= s.max_burst_achieved ==> after.max_burst_achieved
                == s.max_burst_achieved
            &&& after == (RateLimiterInner {
                total_chapters: after.total_chapters,
                consecutive_successes: after.consecutive_successes,
                max_burst_achieved: after.max_burst_achieved,
                current_delay: after.current_delay,
                ..s
            })
        }),
{
}

/// What a block brings, in numbers: a cooldown of 30 s, or, within five minutes of the last block,
/// half as many whole seconds again as the last one, up to three minutes. The delay rises by 150 ms,
/// up to two seconds. The permits since the last reset are recorded where they are the fewest.
pub proof fn law_what_a_block_brings(s: RateLimiterInner, now: u128)
    requires
        s.wf(),
        s.total_blocks_hit < usize::MAX,
        now + 180_000_000_000 <= u128::MAX,
    ensures
        ({
            let after = s.after_block(now);
            let recent = s.last_block_at matches Some(t) && now - t < 300_000_000_000;
            let again = (s.current_cooldown as int / 1_000_000_000) * 3 / 2;
            let count = s.current_burst_count;
            &&& after.cooldown_until == Some((now + after.current_cooldown) as u128)
            &&& !recent ==> after.current_cooldown == 30_000_000_000
            &&& recent && again <= 180 ==> after.current_cooldown == again * 1_000_000_000
            &&& recent && again > 180 ==> after.current_cooldown == 180_000_000_000
            &&& s.current_delay <= 1_850_000_000 ==> after.current_delay == s.current_delay
                + 150_000_000
            &&& s.current_delay > 1_850_000_000 ==> after.current_delay == 2_000_000_000
            &&& after.total_blocks_hit == s.total_blocks_hit + 1
            &&& after.last_block_at == Some(now)
            &&& after.burst_tokens == 0
            &&& after.consecutive_successes == 0
            &&& after.current_burst_count == 0
            &&& after.total_chapters == s.total_chapters
            &&& after.max_burst_achieved == s.max_burst_achieved
            &&& after.last_permit_time == s.last_permit_time
            &&& count == 0 ==> after.min_burst_before_block == s.min_burst_before_block
            &&& count > 0 ==> (after.min_burst_before_block matches Some(m) && m <= count && (m
                == count || s.min_burst_before_block == Some(m)) && (
            s.min_burst_before_block matches Some(b) ==> m <= b))
        }),
{
}

/// A limiter begins with ten permits, the shortest delay and cooldown, and no history.
pub proof fn law_new_limiter(now: u128)
    ensures
        ({
            let s = RateLimiterInner::initial(now);
            &&& s.wf()
            &&& s.burst_tokens == 10
            &&& s.last_permit_time == now
            &&& s.cooldown_until is None
            &&& s.current_delay == 200_000_000
            &&& s.current_cooldown == 30_000_000_000
            &&& s.consecutive_successes == 0 && s.current_burst_count == 0
            &&& s.total_chapters == 0 && s.total_blocks_hit == 0
            &&& s.min_burst_before_block is None && s.max_burst_achieved == 0
            &&& s.last_block_at is None
        }),
{
}

} // verus!
