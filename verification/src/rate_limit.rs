//! Adaptive pacing of chapter downloads.
//!
//! The limiter is a state machine over points in time. A point in time, and a span of time, is a
//! number of nanoseconds; points count from an origin that the caller picks once. The caller
//! reads the clock, holds the limiter under a lock, and sleeps where a step asks for it.
use vstd::prelude::*;

verus! {

/// Zero-delay permits available after an idle period.
pub const BURST_CAPACITY: usize = 10;

/// Seconds without a granted permit after which the burst allowance is restored.
pub const BURST_REPLENISH_IDLE_SECS: u64 = 15;

/// Delay between paced permits when nothing has been blocked.
pub const BASE_DELAY_MS: u64 = 200;

/// Largest delay between paced permits.
pub const MAX_DELAY_MS: u64 = 2000;

/// Increase of the delay on a block.
pub const DELAY_STEP_UP_MS: u64 = 150;

/// Smallest decrease of the delay on sustained success.
pub const DELAY_STEP_DOWN_MS: u64 = 25;

/// Consecutive successes after which the delay is relaxed.
pub const CONSECUTIVE_SUCCESS_RELAX: usize = 20;

/// Cooldown upon the first block.
pub const BASE_COOLDOWN_SECS: u64 = 30;

/// Largest cooldown that repeated blocks escalate to. A `Retry-After` span can exceed it.
pub const MAX_COOLDOWN_SECS: u64 = 180;

/// Seconds without a block after which delay and cooldown return to their baseline.
pub const RECOVERY_SECS: u64 = 300;

/// Seconds by which an escalated cooldown is relaxed on sustained success.
pub const COOLDOWN_STEP_DOWN_SECS: u64 = 10;

/// Nanoseconds in a millisecond.
pub const NANOS_PER_MILLI: u128 = 1_000_000;

/// Nanoseconds in a second.
pub const NANOS_PER_SEC: u128 = 1_000_000_000;

/// The longest span that a clock can report: `u64::MAX` seconds and just under one more.
pub const MAX_SPAN: u128 = 18_446_744_073_709_551_615_999_999_999;

/// A number of milliseconds in nanoseconds.
pub open spec fn ms(n: u64) -> int {
    n * 1_000_000
}

/// A number of seconds in nanoseconds.
pub open spec fn secs(n: u64) -> int {
    n * 1_000_000_000
}

/// The span from `earlier` to `now`, or nothing where `earlier` lies ahead.
pub open spec fn since(now: u128, earlier: u128) -> int {
    if now >= earlier {
        now - earlier
    } else {
        0
    }
}

/// The larger of two numbers.
pub open spec fn larger(a: int, b: int) -> int {
    if a >= b {
        a
    } else {
        b
    }
}

/// The smaller of two numbers.
pub open spec fn smaller(a: int, b: int) -> int {
    if a <= b {
        a
    } else {
        b
    }
}

/// The schedule generation after `g`; the counter wraps.
pub open spec fn next_generation(g: u64) -> u64 {
    if g == u64::MAX {
        0
    } else {
        (g + 1) as u64
    }
}

/// Counters and pacing parameters, as reported to the user.
#[derive(Debug, Clone, Copy)]
pub struct RateLimitStatsSnapshot {
    pub total_successful_chapters: usize,
    pub total_blocks_hit: usize,
    pub burst_permits_since_reset: usize,
    pub total_permits_since_reset: usize,
    pub last_total_permits_before_block: usize,
    pub last_burst_permits_before_block: usize,
    pub min_burst_before_block: Option<usize>,
    pub min_total_before_block: Option<usize>,
    pub max_burst_achieved: usize,
    pub current_delay_ms: u64,
    pub current_cooldown_secs: u64,
}

/// Everything the limiter remembers.
pub struct RateLimiterInner {
    /// Zero-delay permits left in the current burst.
    pub burst_tokens: usize,
    /// Workers that wait for a paced slot.
    pub reserved_permits: usize,
    /// When the last permit was granted, burst or paced.
    pub last_permit_granted_at: u128,
    /// The first free slot of the paced schedule.
    pub next_permit_at: u128,
    /// Until when all downloads pause, while a block is in force.
    pub cooldown_until: Option<u128>,
    /// Delay between paced permits.
    pub current_delay: u128,
    /// Length of the cooldown that the last block brought.
    pub current_cooldown: u128,
    /// Successes since the last relaxation or block.
    pub consecutive_successes: usize,
    /// Burst permits granted since the last idle reset or block.
    pub burst_permits_since_reset: usize,
    /// All permits granted since the last idle reset or block.
    pub total_permits_since_reset: usize,
    /// All permits granted before the most recent block.
    pub last_total_permits_before_block: usize,
    /// Burst permits granted before the most recent block.
    pub last_burst_permits_before_block: usize,
    /// Changes whenever the schedule is reset, so that earlier reservations lapse.
    pub schedule_generation: u64,
    /// Chapters downloaded over the life of the limiter.
    pub total_successful_chapters: usize,
    /// Blocks over the life of the limiter.
    pub total_blocks_hit: usize,
    /// Smallest non-empty burst that was followed by a block.
    pub min_burst_before_block: Option<usize>,
    /// Smallest positive number of permits that was followed by a block.
    pub min_total_before_block: Option<usize>,
    /// Largest burst granted.
    pub max_burst_achieved: usize,
    /// When the most recent block came, until the limiter has recovered from it.
    pub last_block_at: Option<u128>,
}

/// A slot of the paced schedule, held while the worker waits for it.
#[derive(Clone, Copy)]
pub struct Reservation {
    /// The schedule generation that the slot belongs to.
    pub generation: u64,
    /// How long to wait for the slot.
    pub wait: u128,
}

/// What a worker that asks for a permit is told.
pub enum PermitStep {
    /// A burst permit: start at once.
    Granted,
    /// A cooldown is in force: wait that long, or until woken, and ask again.
    Cooldown { wait: u128 },
    /// A paced slot: wait for it, or until woken, then complete the reservation.
    Paced(Reservation),
}

/// What a reported block led to.
pub struct BlockOutcome {
    /// How long downloads pause from now.
    pub cooldown: u128,
    /// Whether the block was new, so that waiting workers have to be woken.
    pub started: bool,
}

impl RateLimiterInner {
    /// What every reachable state satisfies.
    pub open spec fn wf(self) -> bool {
        &&& self.burst_tokens + self.burst_permits_since_reset <= BURST_CAPACITY
        &&& self.burst_permits_since_reset <= self.total_permits_since_reset
        &&& self.burst_permits_since_reset <= self.max_burst_achieved <= BURST_CAPACITY
        &&& ms(BASE_DELAY_MS) <= self.current_delay <= ms(MAX_DELAY_MS)
        &&& secs(BASE_COOLDOWN_SECS) <= self.current_cooldown <= MAX_SPAN
        &&& self.consecutive_successes < CONSECUTIVE_SUCCESS_RELAX
        &&& self.last_burst_permits_before_block <= self.last_total_permits_before_block
        &&& self.last_burst_permits_before_block <= BURST_CAPACITY
        &&& self.min_burst_before_block matches Some(m) ==> 1 <= m <= BURST_CAPACITY
        &&& self.min_total_before_block matches Some(m) ==> 1 <= m
        &&& self.last_burst_permits_before_block > 0 ==> (self.min_burst_before_block matches Some(
            m,
        ) && m <= self.last_burst_permits_before_block)
        &&& self.last_total_permits_before_block > 0 ==> (self.min_total_before_block matches Some(
            m,
        ) && m <= self.last_total_permits_before_block)
        &&& self.last_block_at is Some ==> self.total_blocks_hit > 0
        &&& self.cooldown_until matches Some(until) ==> {
            &&& self.next_permit_at == until
            &&& self.burst_tokens == 0
            &&& self.total_permits_since_reset == 0
            &&& self.last_block_at is Some
        }
    }

    /// Whether the cooldown is no longer than repeated blocks escalate to, or than `longest`, the
    /// longest span that the server ever asked for.
    pub open spec fn cools_within(self, longest: int) -> bool {
        self.current_cooldown <= larger(secs(MAX_COOLDOWN_SECS), longest)
    }

    /// Whether the counters and the timeline leave room for one more permit at `now`.
    pub open spec fn has_room(self, now: u128) -> bool {
        &&& self.total_permits_since_reset < usize::MAX
        &&& self.reserved_permits < usize::MAX
        &&& larger(self.next_permit_at as int, now as int) + ms(MAX_DELAY_MS) <= u128::MAX
    }

    /// The state at the start, at time `now`.
    pub open spec fn initial(now: u128) -> RateLimiterInner {
        RateLimiterInner {
            burst_tokens: BURST_CAPACITY,
            reserved_permits: 0,
            last_permit_granted_at: (now - secs(BURST_REPLENISH_IDLE_SECS) - secs(1)) as u128,
            next_permit_at: now,
            cooldown_until: None,
            current_delay: ms(BASE_DELAY_MS) as u128,
            current_cooldown: secs(BASE_COOLDOWN_SECS) as u128,
            consecutive_successes: 0,
            burst_permits_since_reset: 0,
            total_permits_since_reset: 0,
            last_total_permits_before_block: 0,
            last_burst_permits_before_block: 0,
            schedule_generation: 0,
            total_successful_chapters: 0,
            total_blocks_hit: 0,
            min_burst_before_block: None,
            min_total_before_block: None,
            max_burst_achieved: 0,
            last_block_at: None,
        }
    }

    /// Whether a cooldown has run out at `now`.
    pub open spec fn cooldown_over(self, now: u128) -> bool {
        self.cooldown_until matches Some(until) && now >= until
    }

    /// The state once a cooldown that has run out is lifted.
    pub open spec fn expired(self, now: u128) -> RateLimiterInner {
        if self.cooldown_over(now) {
            RateLimiterInner {
                cooldown_until: None,
                schedule_generation: next_generation(self.schedule_generation),
                next_permit_at: now,
                last_permit_granted_at: self.cooldown_until->0,
                ..self
            }
        } else {
            self
        }
    }

    /// Back to the baseline after a long time without a block.
    pub open spec fn recovered(self, now: u128) -> RateLimiterInner {
        if self.last_block_at matches Some(t) && since(now, t) >= secs(RECOVERY_SECS) {
            RateLimiterInner {
                current_cooldown: secs(BASE_COOLDOWN_SECS) as u128,
                current_delay: ms(BASE_DELAY_MS) as u128,
                last_block_at: None,
                ..self
            }
        } else {
            self
        }
    }

    /// Nobody waits, the schedule has caught up, and no permit was granted for a while.
    pub open spec fn idle(self, now: u128) -> bool {
        &&& self.reserved_permits == 0
        &&& now >= self.next_permit_at
        &&& since(now, self.last_permit_granted_at) >= secs(BURST_REPLENISH_IDLE_SECS)
    }

    /// The burst allowance restored, where the limiter is idle.
    pub open spec fn replenished(self, now: u128) -> RateLimiterInner {
        if self.idle(now) {
            RateLimiterInner {
                burst_tokens: BURST_CAPACITY,
                burst_permits_since_reset: 0,
                total_permits_since_reset: 0,
                next_permit_at: now,
                schedule_generation: next_generation(self.schedule_generation),
                ..self
            }
        } else {
            self
        }
    }

    /// The state in which a permit request at `now` is decided, when no cooldown is in force.
    pub open spec fn refreshed(self, now: u128) -> RateLimiterInner {
        self.expired(now).recovered(now).replenished(now)
    }

    /// One burst permit granted at `now`.
    pub open spec fn burst_granted(self, now: u128) -> RateLimiterInner {
        RateLimiterInner {
            burst_tokens: (self.burst_tokens - 1) as usize,
            burst_permits_since_reset: (self.burst_permits_since_reset + 1) as usize,
            total_permits_since_reset: (self.total_permits_since_reset + 1) as usize,
            max_burst_achieved: larger(
                self.max_burst_achieved as int,
                self.burst_permits_since_reset + 1,
            ) as usize,
            last_permit_granted_at: now,
            next_permit_at: larger(self.next_permit_at as int, now as int) as u128,
            ..self
        }
    }

    /// The next paced slot reserved at `now`.
    pub open spec fn slot_reserved(self, now: u128) -> RateLimiterInner {
        RateLimiterInner {
            next_permit_at: (larger(self.next_permit_at as int, now as int)
                + self.current_delay) as u128,
            reserved_permits: (self.reserved_permits + 1) as usize,
            ..self
        }
    }

    /// The state after a permit request at `now`.
    pub open spec fn after_request(self, now: u128) -> RateLimiterInner {
        if self.expired(now).cooldown_until is Some {
            self
        } else if self.refreshed(now).burst_tokens > 0 {
            self.refreshed(now).burst_granted(now)
        } else {
            self.refreshed(now).slot_reserved(now)
        }
    }

    /// The answer to a permit request at `now`.
    pub open spec fn answer(self, now: u128) -> PermitStep {
        let ready = self.refreshed(now);
        match self.expired(now).cooldown_until {
            Some(until) => PermitStep::Cooldown { wait: since(until, now) as u128 },
            None => if ready.burst_tokens > 0 {
                PermitStep::Granted
            } else {
                PermitStep::Paced(
                    Reservation {
                        generation: ready.schedule_generation,
                        wait: since(
                            larger(ready.next_permit_at as int, now as int) as u128,
                            now,
                        ) as u128,
                    },
                )
            },
        }
    }

    /// One worker fewer that waits.
    pub open spec fn released(self) -> RateLimiterInner {
        RateLimiterInner {
            reserved_permits: if self.reserved_permits == 0 {
                0
            } else {
                (self.reserved_permits - 1) as usize
            },
            ..self
        }
    }

    /// Whether a reservation still stands: its schedule was not reset and no cooldown came.
    pub open spec fn honours(self, r: Reservation) -> bool {
        self.schedule_generation == r.generation && self.cooldown_until is None
    }

    /// The state after a waiting worker comes back at `now`.
    pub open spec fn after_wait(self, r: Reservation, now: u128) -> RateLimiterInner {
        if self.honours(r) {
            RateLimiterInner {
                last_permit_granted_at: now,
                total_permits_since_reset: (self.total_permits_since_reset + 1) as usize,
                ..self.released()
            }
        } else {
            self.released()
        }
    }

    /// The delay after a relaxation: a quarter of the excess over the baseline comes off, at
    /// least the smallest step, and never more than the excess.
    pub open spec fn relaxed_delay(self) -> int {
        let excess = self.current_delay - ms(BASE_DELAY_MS);
        let step = larger(excess / 4, ms(DELAY_STEP_DOWN_MS));
        larger(self.current_delay - step, ms(BASE_DELAY_MS))
    }

    /// The cooldown after a relaxation.
    pub open spec fn relaxed_cooldown(self) -> int {
        larger(
            self.current_cooldown - secs(COOLDOWN_STEP_DOWN_SECS),
            secs(BASE_COOLDOWN_SECS),
        )
    }

    /// The state after a chapter was downloaded.
    pub open spec fn after_success(self) -> RateLimiterInner {
        let counted = RateLimiterInner {
            total_successful_chapters: (self.total_successful_chapters + 1) as usize,
            ..self
        };
        if self.consecutive_successes + 1 < CONSECUTIVE_SUCCESS_RELAX {
            RateLimiterInner {
                consecutive_successes: (self.consecutive_successes + 1) as usize,
                ..counted
            }
        } else {
            RateLimiterInner {
                consecutive_successes: 0,
                current_delay: self.relaxed_delay() as u128,
                current_cooldown: self.relaxed_cooldown() as u128,
                ..counted
            }
        }
    }

    /// One and a half times the last cooldown, with half a nanosecond dropped, at least the base
    /// cooldown and at most the largest one, or the last one where that was longer still.
    pub open spec fn escalated_cooldown(self) -> int {
        smaller(
            larger(self.current_cooldown * 3 / 2, secs(BASE_COOLDOWN_SECS)),
            larger(self.current_cooldown as int, secs(MAX_COOLDOWN_SECS)),
        )
    }

    /// The cooldown that a new block at `now` brings: escalated when the last block is recent,
    /// and never shorter than what the server asks for.
    pub open spec fn block_cooldown(self, retry_after: Option<u128>, now: u128) -> int {
        let own = if self.last_block_at matches Some(t) && since(now, t) < secs(RECOVERY_SECS) {
            self.escalated_cooldown()
        } else {
            secs(BASE_COOLDOWN_SECS)
        };
        match retry_after {
            Some(ra) => larger(own, ra as int),
            None => own,
        }
    }

    /// The state after a new block at `now`.
    pub open spec fn blocked(self, retry_after: Option<u128>, now: u128) -> RateLimiterInner {
        let cooldown = self.block_cooldown(retry_after, now);
        RateLimiterInner {
            total_blocks_hit: (self.total_blocks_hit + 1) as usize,
            last_total_permits_before_block: self.total_permits_since_reset,
            last_burst_permits_before_block: self.burst_permits_since_reset,
            schedule_generation: next_generation(self.schedule_generation),
            min_burst_before_block: min_positive(
                self.min_burst_before_block,
                self.burst_permits_since_reset,
            ),
            min_total_before_block: min_positive(
                self.min_total_before_block,
                self.total_permits_since_reset,
            ),
            current_cooldown: cooldown as u128,
            last_block_at: Some(now),
            cooldown_until: Some((now + cooldown) as u128),
            next_permit_at: (now + cooldown) as u128,
            last_permit_granted_at: now,
            current_delay: smaller(
                self.current_delay + ms(DELAY_STEP_UP_MS),
                ms(MAX_DELAY_MS),
            ) as u128,
            burst_tokens: 0,
            burst_permits_since_reset: 0,
            total_permits_since_reset: 0,
            consecutive_successes: 0,
            ..self
        }
    }

    /// The state after a reported block at `now`; one reported during a cooldown changes nothing.
    pub open spec fn after_block(self, retry_after: Option<u128>, now: u128) -> RateLimiterInner {
        if self.expired(now).cooldown_until is Some {
            self
        } else {
            self.expired(now).blocked(retry_after, now)
        }
    }

    /// Whether a block reported at `now` can be recorded without leaving the number ranges; one
    /// reported during a cooldown always can.
    pub open spec fn can_block(self, retry_after: Option<u128>, now: u128) -> bool {
        ||| self.expired(now).cooldown_until is Some
        ||| {
            &&& self.total_blocks_hit < usize::MAX
            &&& retry_after matches Some(ra) ==> ra <= MAX_SPAN
            &&& now + self.block_cooldown(retry_after, now) <= u128::MAX
        }
    }
}

/// The smallest positive value seen, once `val` is seen too.
pub open spec fn min_positive(best: Option<usize>, val: usize) -> Option<usize> {
    if val == 0 {
        best
    } else {
        match best {
            Some(prev) => Some(smaller(prev as int, val as int) as usize),
            None => Some(val),
        }
    }
}

pub(crate) fn update_min(target: &mut Option<usize>, val: usize)
    ensures
        *final(target) == min_positive(*old(target), val),
{
    if val > 0 {
        let best: usize = match *target {
            Some(prev) => if prev < val {
                prev
            } else {
                val
            },
            None => val,
        };
        *target = Some(best);
    }
}

fn span_since(now: u128, earlier: u128) -> (d: u128)
    ensures
        d == since(now, earlier),
{
    if now >= earlier {
        now - earlier
    } else {
        0
    }
}

/// Lifts a cooldown that has run out, and says whether there was one.
fn expire_cooldown_if_needed(inner: &mut RateLimiterInner, now: u128) -> (lifted: bool)
    ensures
        *final(inner) == old(inner).expired(now),
        lifted == old(inner).cooldown_over(now),
{
    if let Some(until) = inner.cooldown_until {
        if now >= until {
            inner.cooldown_until = None;
            inner.schedule_generation = inner.schedule_generation.wrapping_add(1);
            inner.next_permit_at = now;
            inner.last_permit_granted_at = until;
            return true;
        }
    }
    false
}

/// Paces chapter downloads: a burst without delay, then an adaptive delay between permits, and a
/// pause of all downloads while the server blocks.
pub struct AdaptiveRateLimiter {
    inner: RateLimiterInner,
}

impl View for AdaptiveRateLimiter {
    type V = RateLimiterInner;

    closed spec fn view(&self) -> RateLimiterInner {
        self.inner
    }
}

impl AdaptiveRateLimiter {
    /// A limiter that has been idle for long enough to hold a full burst allowance.
    pub fn new(now: u128) -> (limiter: Self)
        requires
            now >= secs(BURST_REPLENISH_IDLE_SECS) + secs(1),
        ensures
            limiter@ == RateLimiterInner::initial(now),
            limiter@.wf(),
    {
        AdaptiveRateLimiter {
            inner: RateLimiterInner {
                burst_tokens: BURST_CAPACITY,
                reserved_permits: 0,
                last_permit_granted_at: now - (BURST_REPLENISH_IDLE_SECS as u128 + 1)
                    * NANOS_PER_SEC,
                next_permit_at: now,
                cooldown_until: None,
                current_delay: BASE_DELAY_MS as u128 * NANOS_PER_MILLI,
                current_cooldown: BASE_COOLDOWN_SECS as u128 * NANOS_PER_SEC,
                consecutive_successes: 0,
                burst_permits_since_reset: 0,
                total_permits_since_reset: 0,
                last_total_permits_before_block: 0,
                last_burst_permits_before_block: 0,
                schedule_generation: 0,
                total_successful_chapters: 0,
                total_blocks_hit: 0,
                min_burst_before_block: None,
                min_total_before_block: None,
                max_burst_achieved: 0,
                last_block_at: None,
            },
        }
    }

    /// Whether one more permit can be requested or completed at `now`.
    pub fn has_room(&self, now: u128) -> (b: bool)
        ensures
            b == self@.has_room(now),
    {
        let slot = if self.inner.next_permit_at >= now {
            self.inner.next_permit_at
        } else {
            now
        };
        self.inner.total_permits_since_reset < usize::MAX && self.inner.reserved_permits
            < usize::MAX && slot <= u128::MAX - MAX_DELAY_MS as u128 * NANOS_PER_MILLI
    }

    /// One permit request, before a chapter download. The caller acts on the answer and, where
    /// that says so, asks again. The flag says that a cooldown was lifted, so that the other
    /// waiting workers have to be woken.
    pub fn wait_for_chapter_permit(&mut self, now: u128) -> (r: (PermitStep, bool))
        requires
            old(self)@.wf(),
            old(self)@.has_room(now),
        ensures
            final(self)@ == old(self)@.after_request(now),
            final(self)@.wf(),
            r.0 == old(self)@.answer(now),
            r.1 == old(self)@.cooldown_over(now),
    {
        let lifted = expire_cooldown_if_needed(&mut self.inner, now);
        if let Some(until) = self.inner.cooldown_until {
            return (PermitStep::Cooldown { wait: span_since(until, now) }, lifted);
        }
        if let Some(t) = self.inner.last_block_at {
            if span_since(now, t) >= RECOVERY_SECS as u128 * NANOS_PER_SEC {
                self.inner.current_cooldown = BASE_COOLDOWN_SECS as u128 * NANOS_PER_SEC;
                self.inner.current_delay = BASE_DELAY_MS as u128 * NANOS_PER_MILLI;
                self.inner.last_block_at = None;
            }
        }
        if self.inner.reserved_permits == 0 && now >= self.inner.next_permit_at && span_since(
            now,
            self.inner.last_permit_granted_at,
        ) >= BURST_REPLENISH_IDLE_SECS as u128 * NANOS_PER_SEC {
            self.inner.burst_tokens = BURST_CAPACITY;
            self.inner.burst_permits_since_reset = 0;
            self.inner.total_permits_since_reset = 0;
            self.inner.next_permit_at = now;
            self.inner.schedule_generation = self.inner.schedule_generation.wrapping_add(1);
        }
        let slot = if self.inner.next_permit_at >= now {
            self.inner.next_permit_at
        } else {
            now
        };
        if self.inner.burst_tokens > 0 {
            self.inner.burst_tokens = self.inner.burst_tokens - 1;
            self.inner.burst_permits_since_reset = self.inner.burst_permits_since_reset + 1;
            self.inner.total_permits_since_reset = self.inner.total_permits_since_reset + 1;
            if self.inner.max_burst_achieved < self.inner.burst_permits_since_reset {
                self.inner.max_burst_achieved = self.inner.burst_permits_since_reset;
            }
            self.inner.last_permit_granted_at = now;
            self.inner.next_permit_at = slot;
            return (PermitStep::Granted, lifted);
        }
        self.inner.next_permit_at = slot + self.inner.current_delay;
        self.inner.reserved_permits = self.inner.reserved_permits + 1;
        (
            PermitStep::Paced(
                Reservation {
                    generation: self.inner.schedule_generation,
                    wait: span_since(slot, now),
                },
            ),
            lifted,
        )
    }

    /// The end of the wait for a paced slot. Says whether the permit is granted; where it is not,
    /// the reservation has lapsed and the worker has to ask again.
    pub fn complete_permit(&mut self, reservation: Reservation, now: u128) -> (granted: bool)
        requires
            old(self)@.wf(),
            old(self)@.total_permits_since_reset < usize::MAX,
        ensures
            final(self)@ == old(self)@.after_wait(reservation, now),
            final(self)@.wf(),
            granted == old(self)@.honours(reservation),
    {
        self.abandon_permit();
        if self.inner.schedule_generation != reservation.generation
            || self.inner.cooldown_until.is_some() {
            return false;
        }
        self.inner.last_permit_granted_at = now;
        self.inner.total_permits_since_reset = self.inner.total_permits_since_reset + 1;
        true
    }

    /// Gives a reservation up without a permit.
    pub fn abandon_permit(&mut self)
        requires
            old(self)@.wf(),
        ensures
            final(self)@ == old(self)@.released(),
            final(self)@.wf(),
    {
        if self.inner.reserved_permits > 0 {
            self.inner.reserved_permits = self.inner.reserved_permits - 1;
        }
    }

    /// Records a downloaded chapter. Every so many successes in a row the delay loses a part of
    /// its excess, and an escalated cooldown is shortened.
    pub fn on_chapter_success(&mut self)
        requires
            old(self)@.wf(),
            old(self)@.total_successful_chapters < usize::MAX,
        ensures
            final(self)@ == old(self)@.after_success(),
            final(self)@.wf(),
    {
        self.inner.total_successful_chapters = self.inner.total_successful_chapters + 1;
        self.inner.consecutive_successes = self.inner.consecutive_successes + 1;
        if self.inner.consecutive_successes >= CONSECUTIVE_SUCCESS_RELAX {
            self.inner.consecutive_successes = 0;
            let min_delay = BASE_DELAY_MS as u128 * NANOS_PER_MILLI;
            let quarter = (self.inner.current_delay - min_delay) / 4;
            let least = DELAY_STEP_DOWN_MS as u128 * NANOS_PER_MILLI;
            let step = if quarter >= least {
                quarter
            } else {
                least
            };
            let lowered = if self.inner.current_delay >= step {
                self.inner.current_delay - step
            } else {
                0
            };
            self.inner.current_delay = if lowered >= min_delay {
                lowered
            } else {
                min_delay
            };
            let base = BASE_COOLDOWN_SECS as u128 * NANOS_PER_SEC;
            let shorter = self.inner.current_cooldown - COOLDOWN_STEP_DOWN_SECS as u128
                * NANOS_PER_SEC;
            self.inner.current_cooldown = if shorter >= base {
                shorter
            } else {
                base
            };
        }
    }

    /// Whether a block reported at `now` can be recorded.
    pub fn can_block(&self, retry_after: Option<u128>, now: u128) -> (b: bool)
        requires
            self@.wf(),
        ensures
            b == self@.can_block(retry_after, now),
    {
        if let Some(until) = self.inner.cooldown_until {
            if now < until {
                return true;
            }
        }
        if let Some(ra) = retry_after {
            if ra > MAX_SPAN {
                return false;
            }
        }
        self.inner.total_blocks_hit < usize::MAX && now <= u128::MAX - self.next_cooldown(
            retry_after,
            now,
        )
    }

    /// The cooldown that a new block at `now` would bring.
    fn next_cooldown(&self, retry_after: Option<u128>, now: u128) -> (cooldown: u128)
        requires
            self@.wf(),
            retry_after matches Some(ra) ==> ra <= MAX_SPAN,
        ensures
            cooldown == self@.block_cooldown(retry_after, now),
            secs(BASE_COOLDOWN_SECS) <= cooldown <= MAX_SPAN,
    {
        let base = BASE_COOLDOWN_SECS as u128 * NANOS_PER_SEC;
        let cap = MAX_COOLDOWN_SECS as u128 * NANOS_PER_SEC;
        let current = self.inner.current_cooldown;
        let mut own = base;
        if let Some(t) = self.inner.last_block_at {
            if span_since(now, t) < RECOVERY_SECS as u128 * NANOS_PER_SEC {
                let scaled = current * 3 / 2;
                let low = if scaled >= base {
                    scaled
                } else {
                    base
                };
                let high = if current >= cap {
                    current
                } else {
                    cap
                };
                own = if low <= high {
                    low
                } else {
                    high
                };
            }
        }
        match retry_after {
            Some(ra) => if ra > own {
                ra
            } else {
                own
            },
            None => own,
        }
    }

    /// Records a block at `now`.
    pub fn on_rate_limit_hit(&mut self, now: u128) -> (outcome: BlockOutcome)
        requires
            old(self)@.wf(),
            old(self)@.can_block(None, now),
        ensures
            final(self)@ == old(self)@.after_block(None, now),
            final(self)@.wf(),
            outcome.cooldown == since(final(self)@.cooldown_until->0, now),
            outcome.started == !(old(self)@.expired(now).cooldown_until is Some),
    {
        self.on_rate_limit_hit_with_retry(None, now)
    }

    /// Records a block at `now`, with the span that the server asked to wait for, if it did. A
    /// block reported while a cooldown is in force changes nothing; it is answered with what is
    /// left of the cooldown.
    pub fn on_rate_limit_hit_with_retry(
        &mut self,
        retry_after: Option<u128>,
        now: u128,
    ) -> (outcome: BlockOutcome)
        requires
            old(self)@.wf(),
            old(self)@.can_block(retry_after, now),
        ensures
            final(self)@ == old(self)@.after_block(retry_after, now),
            final(self)@.wf(),
            final(self)@.cooldown_until is Some,
            outcome.cooldown == since(final(self)@.cooldown_until->0, now),
            outcome.started == !(old(self)@.expired(now).cooldown_until is Some),
    {
        expire_cooldown_if_needed(&mut self.inner, now);
        if let Some(until) = self.inner.cooldown_until {
            return BlockOutcome { cooldown: span_since(until, now), started: false };
        }
        let cooldown = self.next_cooldown(retry_after, now);
        let total = self.inner.total_permits_since_reset;
        let burst = self.inner.burst_permits_since_reset;
        self.inner.total_blocks_hit = self.inner.total_blocks_hit + 1;
        self.inner.last_total_permits_before_block = total;
        self.inner.last_burst_permits_before_block = burst;
        self.inner.schedule_generation = self.inner.schedule_generation.wrapping_add(1);
        update_min(&mut self.inner.min_burst_before_block, burst);
        update_min(&mut self.inner.min_total_before_block, total);
        self.inner.current_cooldown = cooldown;
        self.inner.last_block_at = Some(now);
        self.inner.cooldown_until = Some(now + cooldown);
        self.inner.next_permit_at = now + cooldown;
        self.inner.last_permit_granted_at = now;
        let raised = self.inner.current_delay + DELAY_STEP_UP_MS as u128 * NANOS_PER_MILLI;
        let max_delay = MAX_DELAY_MS as u128 * NANOS_PER_MILLI;
        self.inner.current_delay = if raised <= max_delay {
            raised
        } else {
            max_delay
        };
        self.inner.burst_tokens = 0;
        self.inner.burst_permits_since_reset = 0;
        self.inner.total_permits_since_reset = 0;
        self.inner.consecutive_successes = 0;
        BlockOutcome { cooldown, started: true }
    }

    /// The counters and pacing parameters as they stand.
    pub fn get_stats(&self) -> (stats: RateLimitStatsSnapshot)
        requires
            self@.wf(),
        ensures
            stats.total_successful_chapters == self@.total_successful_chapters,
            stats.total_blocks_hit == self@.total_blocks_hit,
            stats.burst_permits_since_reset == self@.burst_permits_since_reset,
            stats.total_permits_since_reset == self@.total_permits_since_reset,
            stats.last_total_permits_before_block == self@.last_total_permits_before_block,
            stats.last_burst_permits_before_block == self@.last_burst_permits_before_block,
            stats.min_burst_before_block == self@.min_burst_before_block,
            stats.min_total_before_block == self@.min_total_before_block,
            stats.max_burst_achieved == self@.max_burst_achieved,
            stats.current_delay_ms == self@.current_delay / NANOS_PER_MILLI,
            stats.current_cooldown_secs == self@.current_cooldown / NANOS_PER_SEC,
    {
        RateLimitStatsSnapshot {
            total_successful_chapters: self.inner.total_successful_chapters,
            total_blocks_hit: self.inner.total_blocks_hit,
            burst_permits_since_reset: self.inner.burst_permits_since_reset,
            total_permits_since_reset: self.inner.total_permits_since_reset,
            last_total_permits_before_block: self.inner.last_total_permits_before_block,
            last_burst_permits_before_block: self.inner.last_burst_permits_before_block,
            min_burst_before_block: self.inner.min_burst_before_block,
            min_total_before_block: self.inner.min_total_before_block,
            max_burst_achieved: self.inner.max_burst_achieved,
            current_delay_ms: (self.inner.current_delay / NANOS_PER_MILLI) as u64,
            current_cooldown_secs: (self.inner.current_cooldown / NANOS_PER_SEC) as u64,
        }
    }
}

// ---------------------------------------------------------------------------------------------
// Laws
// ---------------------------------------------------------------------------------------------

/// While a cooldown is in force no permit is granted and nothing changes; the worker is told to
/// wait for what is left of the cooldown.
pub proof fn law_no_permit_during_cooldown(s: RateLimiterInner, now: u128)
    requires
        s.wf(),
        s.cooldown_until matches Some(until) && now < until,
    ensures
        s.after_request(now) == s,
        s.answer(now) == (PermitStep::Cooldown { wait: (s.cooldown_until->0 - now) as u128 }),
{
}

/// The permit counters and the time of the last permit move when a permit is granted, and only
/// then; lifting a cooldown sets the time of the last permit to the end of the cooldown.
pub proof fn law_counters_move_only_on_grant(s: RateLimiterInner, now: u128)
    requires
        s.wf(),
        s.has_room(now),
    ensures
        s.answer(now) is Granted ==> {
            &&& s.after_request(now).last_permit_granted_at == now
            &&& s.after_request(now).total_permits_since_reset == s.refreshed(
                now,
            ).total_permits_since_reset + 1
            &&& s.after_request(now).burst_permits_since_reset == s.refreshed(
                now,
            ).burst_permits_since_reset + 1
        },
        !(s.answer(now) is Granted) ==> {
            &&& s.after_request(now).last_permit_granted_at == s.expired(
                now,
            ).last_permit_granted_at
            &&& s.after_request(now).total_permits_since_reset == s.total_permits_since_reset
            &&& s.after_request(now).burst_permits_since_reset == s.burst_permits_since_reset
        },
{
}

/// The number of reservations is the number of workers that wait for a paced slot: it grows by
/// one when a slot is handed out, and falls by one when that worker comes back or gives up.
pub proof fn law_reservations_track_waiters(
    s: RateLimiterInner,
    now: u128,
    r: Reservation,
    later: u128,
)
    requires
        s.wf(),
        s.has_room(now),
    ensures
        s.after_request(now).reserved_permits == s.reserved_permits + (if s.answer(
            now,
        ) is Paced {
            1int
        } else {
            0int
        }),
        s.reserved_permits > 0 ==> s.after_wait(r, later).reserved_permits == s.reserved_permits
            - 1 && s.released().reserved_permits == s.reserved_permits - 1,
{
}

/// A block voids every reservation of the schedule that it resets, both while the cooldown lasts
/// and once it is lifted.
pub proof fn law_block_voids_reservations(
    s: RateLimiterInner,
    r: Reservation,
    retry_after: Option<u128>,
    now: u128,
    later: u128,
)
    requires
        s.wf(),
        s.cooldown_until is None,
        s.honours(r),
        s.can_block(retry_after, now),
    ensures
        !s.after_block(retry_after, now).honours(r),
        !s.after_block(retry_after, now).expired(later).honours(r),
{
}

/// A block reported while a cooldown is in force changes nothing, however often it is reported.
pub proof fn law_repeated_block_is_ignored(
    s: RateLimiterInner,
    first: Option<u128>,
    second: Option<u128>,
    now: u128,
    later: u128,
)
    requires
        s.wf(),
        s.can_block(first, now),
        s.after_block(first, now).cooldown_until matches Some(until) && later < until,
    ensures
        s.after_block(first, now).after_block(second, later) == s.after_block(first, now),
{
}

/// A new cooldown is never shorter than the base cooldown or than what the server asks for, and
/// never longer than the largest of the cap, the last cooldown and what the server asks for.
pub proof fn law_cooldown_range(s: RateLimiterInner, retry_after: Option<u128>, now: u128)
    requires
        s.wf(),
        s.can_block(retry_after, now),
        s.expired(now).cooldown_until is None,
    ensures
        s.after_block(retry_after, now).cooldown_until == Some(
            (now + s.block_cooldown(retry_after, now)) as u128,
        ),
        s.block_cooldown(retry_after, now) >= secs(BASE_COOLDOWN_SECS),
        retry_after matches Some(ra) ==> s.block_cooldown(retry_after, now) >= ra,
        s.block_cooldown(retry_after, now) <= larger(
            larger(secs(MAX_COOLDOWN_SECS), s.current_cooldown as int),
            match retry_after {
                Some(ra) => ra as int,
                None => 0,
            },
        ),
{
}

/// A block raises the delay by one step up to the cap, and a success never raises it; it stays
/// between the base delay and the cap.
pub proof fn law_delay_rises_on_blocks_only(
    s: RateLimiterInner,
    retry_after: Option<u128>,
    now: u128,
)
    requires
        s.wf(),
        s.can_block(retry_after, now),
        s.expired(now).cooldown_until is None,
    ensures
        s.after_block(retry_after, now).current_delay == smaller(
            s.current_delay + ms(DELAY_STEP_UP_MS),
            ms(MAX_DELAY_MS),
        ),
        s.after_block(retry_after, now).current_delay >= s.current_delay,
        ms(BASE_DELAY_MS) <= s.after_success().current_delay <= s.current_delay,
        s.after_success().current_cooldown <= s.current_cooldown,
{
}

/// Between two resets of the burst allowance at most the capacity is granted without delay.
pub proof fn law_burst_is_bounded(s: RateLimiterInner)
    requires
        s.wf(),
    ensures
        s.burst_permits_since_reset <= BURST_CAPACITY,
        s.max_burst_achieved <= BURST_CAPACITY,
{
}

/// Two paced slots of one schedule are at least the delay apart.
pub proof fn law_paced_slots_are_spaced(s: RateLimiterInner, now: u128, later: u128)
    requires
        s.wf(),
        s.has_room(now),
        now <= later,
        s.after_request(now).has_room(later),
        s.answer(now) is Paced,
        s.after_request(now).answer(later) is Paced,
        s.answer(now)->Paced_0.generation == s.after_request(now).answer(
            later,
        )->Paced_0.generation,
    ensures
        later + s.after_request(now).answer(later)->Paced_0.wait >= now
            + s.answer(now)->Paced_0.wait + s.after_request(now).current_delay,
{
}

/// After the recovery time without a block the next request finds the baseline delay and
/// cooldown. What was observed of blocks stays, and a block right after it does not escalate.
pub proof fn law_recovery_restores_baseline(s: RateLimiterInner, now: u128, later: u128)
    requires
        s.wf(),
        s.has_room(now),
        s.expired(now).cooldown_until is None,
        s.last_block_at matches Some(t) && since(now, t) >= secs(RECOVERY_SECS),
    ensures
        s.after_request(now).current_delay == ms(BASE_DELAY_MS),
        s.after_request(now).current_cooldown == secs(BASE_COOLDOWN_SECS),
        s.after_request(now).last_block_at is None,
        s.after_request(now).total_blocks_hit == s.total_blocks_hit,
        s.after_request(now).min_burst_before_block == s.min_burst_before_block,
        s.after_request(now).min_total_before_block == s.min_total_before_block,
        s.after_request(now).block_cooldown(None, later) == secs(BASE_COOLDOWN_SECS),
{
}

/// An idle limiter hands out a full burst: the request that finds it idle is granted at once and
/// leaves all but one of the burst permits.
pub proof fn law_idle_restores_burst(s: RateLimiterInner, now: u128)
    requires
        s.wf(),
        s.has_room(now),
        s.expired(now).cooldown_until is None,
        s.expired(now).idle(now),
    ensures
        s.answer(now) is Granted,
        s.after_request(now).burst_tokens == BURST_CAPACITY - 1,
        s.after_request(now).burst_permits_since_reset == 1,
        s.after_request(now).total_permits_since_reset == 1,
{
}

/// What a new block does: the cooldown is one and a half times the last one, up to the cap or the
/// last one where that was longer, if the last block is recent, and the base cooldown otherwise; it
/// is at least what the server asks for, and runs from now on. The delay rises by one step up to
/// its cap, and the block is counted.
pub proof fn law_block_effect(s: RateLimiterInner, retry_after: Option<u128>, now: u128)
    requires
        s.wf(),
        s.expired(now).cooldown_until is None,
        s.can_block(retry_after, now),
    ensures
        ({
            let recent = s.last_block_at matches Some(t) && since(now, t) < secs(RECOVERY_SECS);
            let own = if recent {
                smaller(
                    s.current_cooldown * 3 / 2,
                    larger(s.current_cooldown as int, secs(MAX_COOLDOWN_SECS)),
                )
            } else {
                secs(BASE_COOLDOWN_SECS)
            };
            let cooldown = match retry_after {
                Some(ra) => larger(own, ra as int),
                None => own,
            };
            let after = s.after_block(retry_after, now);
            &&& after.current_cooldown == cooldown
            &&& after.cooldown_until == Some((now + cooldown) as u128)
            &&& since(after.cooldown_until->0, now) == cooldown
            &&& after.current_delay == smaller(
                s.current_delay + ms(DELAY_STEP_UP_MS),
                ms(MAX_DELAY_MS),
            )
            &&& after.total_blocks_hit == s.total_blocks_hit + 1
        }),
{
}

/// The state once a permit request at `now` has led to a permit: at once with a burst permit, and
/// when the worker comes back at `later` with a paced one.
pub open spec fn permit_taken(s: RateLimiterInner, now: u128, later: u128) -> RateLimiterInner {
    match s.answer(now) {
        PermitStep::Paced(r) => s.after_request(now).after_wait(r, later),
        _ => s.after_request(now),
    }
}

/// A single worker that asks when the schedule has caught up gets its permit without waiting.
/// Where no permit was granted for the idle time, the burst starts anew; otherwise nothing is reset
/// and the permit is counted once.
pub proof fn law_gap_decides_the_burst(s: RateLimiterInner, now: u128)
    requires
        s.wf(),
        s.has_room(now),
        s.expired(now).cooldown_until is None,
        s.reserved_permits == 0,
        now >= s.expired(now).next_permit_at,
    ensures
        s.answer(now) matches PermitStep::Paced(r) ==> r.wait == 0 && s.after_request(
            now,
        ).honours(r),
        ({
            let gap = since(now, s.expired(now).last_permit_granted_at);
            let after = permit_taken(s, now, now);
            &&& gap >= secs(BURST_REPLENISH_IDLE_SECS) ==> {
                &&& s.answer(now) is Granted
                &&& after.burst_permits_since_reset == 1
                &&& after.total_permits_since_reset == 1
                &&& after.burst_tokens == BURST_CAPACITY - 1
            }
            &&& gap < secs(BURST_REPLENISH_IDLE_SECS) ==> after.total_permits_since_reset
                == s.total_permits_since_reset + 1
        }),
{
}

/// A call on the limiter.
pub enum LimiterCall {
    /// A permit is asked for.
    Request { now: u128 },
    /// A worker comes back from its wait.
    Complete { reservation: Reservation, now: u128 },
    /// A worker gives its reservation up.
    Abandon,
    /// A chapter was downloaded.
    Success,
    /// A block is reported.
    Block { retry_after: Option<u128>, now: u128 },
}

impl RateLimiterInner {
    /// Whether the counters and the timeline leave room for a call.
    pub open spec fn admits(self, call: LimiterCall) -> bool {
        match call {
            LimiterCall::Request { now } => self.has_room(now),
            LimiterCall::Complete { .. } => self.total_permits_since_reset < usize::MAX,
            LimiterCall::Abandon => true,
            LimiterCall::Success => self.total_successful_chapters < usize::MAX,
            LimiterCall::Block { retry_after, now } => self.can_block(retry_after, now),
        }
    }

    /// The state after a call.
    pub open spec fn after_call(self, call: LimiterCall) -> RateLimiterInner {
        match call {
            LimiterCall::Request { now } => self.after_request(now),
            LimiterCall::Complete { reservation, now } => self.after_wait(reservation, now),
            LimiterCall::Abandon => self.released(),
            LimiterCall::Success => self.after_success(),
            LimiterCall::Block { retry_after, now } => self.after_block(retry_after, now),
        }
    }

    /// Whether a call grants a permit.
    pub open spec fn grants(self, call: LimiterCall) -> bool {
        match call {
            LimiterCall::Request { now } => self.answer(now) is Granted,
            LimiterCall::Complete { reservation, .. } => self.honours(reservation),
            _ => false,
        }
    }

    /// The state after calls in their order.
    pub open spec fn after_calls(self, calls: Seq<LimiterCall>) -> RateLimiterInner
        decreases calls.len(),
    {
        if calls.len() == 0 {
            self
        } else {
            self.after_calls(calls.drop_last()).after_call(calls.last())
        }
    }

    /// Whether there is room for each of the calls when it comes.
    pub open spec fn admits_all(self, calls: Seq<LimiterCall>) -> bool
        decreases calls.len(),
    {
        calls.len() == 0 || (self.admits_all(calls.drop_last()) && self.after_calls(
            calls.drop_last(),
        ).admits(calls.last()))
    }
}

/// Whether no block among the calls asks for a longer wait.
pub open spec fn asks_at_most(calls: Seq<LimiterCall>, longest: int) -> bool {
    forall|i: int|
        0 <= i < calls.len() ==> ((#[trigger] calls[i]) matches LimiterCall::Block {
            retry_after: Some(ra),
            ..
        } ==> ra <= longest)
}

proof fn lemma_call_keeps_order(s: RateLimiterInner, call: LimiterCall, longest: int)
    requires
        s.wf(),
        s.cools_within(longest),
        s.admits(call),
        call matches LimiterCall::Block { retry_after: Some(ra), .. } ==> ra <= longest,
    ensures
        s.after_call(call).wf(),
        s.after_call(call).cools_within(longest),
{
}

/// After any calls the counters and pacing parameters belong together and stay in their ranges;
/// the cooldown exceeds the cap only where the server asked for a longer wait, and what was granted
/// before the last block is never under the smallest number observed.
pub proof fn law_order_after_any_calls(start: u128, calls: Seq<LimiterCall>, longest: int)
    requires
        start >= secs(BURST_REPLENISH_IDLE_SECS) + secs(1),
        RateLimiterInner::initial(start).admits_all(calls),
        asks_at_most(calls, longest),
    ensures
        ({
            let s = RateLimiterInner::initial(start).after_calls(calls);
            &&& s.wf()
            &&& s.burst_permits_since_reset <= s.total_permits_since_reset
            &&& s.burst_permits_since_reset <= s.max_burst_achieved <= BURST_CAPACITY
            &&& ms(BASE_DELAY_MS) <= s.current_delay <= ms(MAX_DELAY_MS)
            &&& secs(BASE_COOLDOWN_SECS) <= s.current_cooldown <= larger(
                secs(MAX_COOLDOWN_SECS),
                longest,
            )
            &&& BASE_DELAY_MS <= s.current_delay / NANOS_PER_MILLI <= MAX_DELAY_MS
            &&& BASE_COOLDOWN_SECS <= s.current_cooldown / NANOS_PER_SEC
            &&& longest <= secs(MAX_COOLDOWN_SECS) ==> s.current_cooldown / NANOS_PER_SEC
                <= MAX_COOLDOWN_SECS
            &&& s.min_burst_before_block matches Some(m) ==> m >= 1
            &&& s.min_total_before_block matches Some(m) ==> m >= 1
            &&& s.last_burst_permits_before_block > 0 ==> (s.min_burst_before_block matches Some(m)
                && m <= s.last_burst_permits_before_block)
            &&& s.last_total_permits_before_block > 0 ==> (s.min_total_before_block matches Some(m)
                && m <= s.last_total_permits_before_block)
        }),
    decreases calls.len(),
{
    if calls.len() > 0 {
        let before = calls.drop_last();
        assert forall|i: int| 0 <= i < before.len() implies ((#[trigger] before[i]) matches LimiterCall::Block {
            retry_after: Some(ra),
            ..
        } ==> ra <= longest) by {
            assert(before[i] == calls[i]);
        }
        law_order_after_any_calls(start, before, longest);
        assert(calls.last() == calls[calls.len() - 1]);
        lemma_call_keeps_order(
            RateLimiterInner::initial(start).after_calls(before),
            calls.last(),
            longest,
        );
    }
}

/// Whether every permit request, return and block among the calls comes before a point in time.
pub open spec fn come_before(calls: Seq<LimiterCall>, until: u128) -> bool {
    forall|i: int|
        0 <= i < calls.len() ==> match #[trigger] calls[i] {
            LimiterCall::Request { now } => now < until,
            LimiterCall::Complete { now, .. } => now < until,
            LimiterCall::Block { now, .. } => now < until,
            _ => true,
        }
}

/// Once a cooldown is set, no call before its end grants a permit, whoever makes it: the cooldown
/// stands, the permit counters stay at nothing, and the next call is granted no permit either.
pub proof fn law_nothing_is_granted_before_the_cooldown_ends(
    s: RateLimiterInner,
    calls: Seq<LimiterCall>,
    next: LimiterCall,
)
    requires
        s.wf(),
        s.cooldown_until is Some,
        s.admits_all(calls),
        come_before(calls.push(next), s.cooldown_until->0),
    ensures
        s.after_calls(calls).cooldown_until == s.cooldown_until,
        s.after_calls(calls).total_permits_since_reset == 0,
        s.after_calls(calls).burst_permits_since_reset == 0,
        s.after_calls(calls).last_permit_granted_at == s.last_permit_granted_at,
        !s.after_calls(calls).grants(next),
        s.after_calls(calls).wf(),
    decreases calls.len(),
{
    let all = calls.push(next);
    assert(all[calls.len() as int] == next);
    if calls.len() > 0 {
        let before = calls.drop_last();
        assert(calls.last() == all[calls.len() - 1]);
        assert forall|i: int| 0 <= i < before.push(calls.last()).len() implies match #[trigger] before.push(
            calls.last(),
        )[i] {
            LimiterCall::Request { now } => now < s.cooldown_until->0,
            LimiterCall::Complete { now, .. } => now < s.cooldown_until->0,
            LimiterCall::Block { now, .. } => now < s.cooldown_until->0,
            _ => true,
        } by {
            assert(before.push(calls.last())[i] == all[i]);
        }
        law_nothing_is_granted_before_the_cooldown_ends(s, before, calls.last());
        let t = s.after_calls(before);
        lemma_call_keeps_order(t, calls.last(), u128::MAX as int);
    }
}

/// The first permit after a cooldown is a paced one, unless the limiter then stands idle for the
/// idle time: asking for it changes no permit counter, and taking it adds one to the permits and
/// none to the burst permits.
pub proof fn law_first_permit_after_cooldown(s: RateLimiterInner, now: u128, later: u128)
    requires
        s.wf(),
        s.has_room(now),
        s.cooldown_until matches Some(until) && until <= now && now < until + secs(
            BURST_REPLENISH_IDLE_SECS,
        ),
    ensures
        s.answer(now) is Paced,
        s.after_request(now).total_permits_since_reset == 0,
        s.after_request(now).burst_permits_since_reset == 0,
        s.after_request(now).honours(s.answer(now)->Paced_0),
        permit_taken(s, now, later).total_permits_since_reset == 1,
        permit_taken(s, now, later).burst_permits_since_reset == 0,
        permit_taken(s, now, later).last_permit_granted_at == later,
{
}

/// A paced reservation that was handed out is granted when its worker comes back, however long the
/// wait that it was given, as long as nothing disturbed the schedule in between: no block came, and
/// no request found the limiter idle, with nobody waiting, the schedule caught up, and no permit for
/// fifteen seconds. The permit is then counted once.
pub proof fn law_undisturbed_worker_is_never_turned_away(
    s: RateLimiterInner,
    now: u128,
    calls: Seq<LimiterCall>,
    later: u128,
)
    requires
        s.wf(),
        s.has_room(now),
        s.answer(now) is Paced,
        s.after_request(now).admits_all(calls),
        forall|i: int|
            0 <= i < calls.len() ==> match #[trigger] calls[i] {
                LimiterCall::Block { .. } => false,
                LimiterCall::Request { now: t } => {
                    let found = s.after_request(now).after_calls(calls.take(i));
                    found.reserved_permits > 0 || t < found.next_permit_at || t
                        < found.last_permit_granted_at + 15_000_000_000
                },
                _ => true,
            },
    ensures
        ({
            let r = s.answer(now)->Paced_0;
            let found = s.after_request(now).after_calls(calls);
            &&& found.honours(r)
            &&& found.wf()
            &&& found.total_permits_since_reset < usize::MAX ==> found.after_wait(
                r,
                later,
            ).total_permits_since_reset == found.total_permits_since_reset + 1
            &&& found.after_wait(r, later).last_permit_granted_at == later
        }),
    decreases calls.len(),
{
    let start = s.after_request(now);
    if calls.len() > 0 {
        let before = calls.drop_last();
        let n = before.len() as int;
        assert forall|i: int| 0 <= i < before.len() implies match #[trigger] before[i] {
            LimiterCall::Block { .. } => false,
            LimiterCall::Request { now: t } => {
                let found = start.after_calls(before.take(i));
                found.reserved_permits > 0 || t < found.next_permit_at || t
                    < found.last_permit_granted_at + 15_000_000_000
            },
            _ => true,
        } by {
            assert(before[i] == calls[i]);
            assert(before.take(i) =~= calls.take(i));
        }
        law_undisturbed_worker_is_never_turned_away(s, now, before, later);
        assert(calls.take(n) =~= before);
        assert(calls.last() == calls[n]);
        lemma_call_keeps_order(start.after_calls(before), calls.last(), u128::MAX as int);
    }
}

/// Who gets a permit at once: during a cooldown nobody; otherwise whoever finds burst permits left,
/// or finds the limiter idle, with nobody waiting, the schedule caught up, and no permit for fifteen
/// seconds since the last one or since the end of the cooldown. A burst has ten permits, and each is
/// counted.
pub proof fn law_who_starts_at_once(s: RateLimiterInner, now: u128)
    requires
        s.wf(),
        s.has_room(now),
    ensures
        ({
            let after = s.after_request(now);
            let cooling = s.cooldown_until is Some && now < s.cooldown_until->0;
            let idle = s.reserved_permits == 0 && match s.cooldown_until {
                Some(until) => now - until >= 15_000_000_000,
                None => now >= s.next_permit_at && now - s.last_permit_granted_at
                    >= 15_000_000_000,
            };
            &&& s.answer(now) is Granted <==> !cooling && (s.burst_tokens > 0 || idle)
            &&& s.answer(now) is Cooldown <==> cooling
            &&& cooling ==> s.answer(now)->wait == s.cooldown_until->0 - now && after == s
            &&& s.answer(now) is Granted ==> after.last_permit_granted_at == now
                && after.cooldown_until is None
            &&& s.answer(now) is Granted && idle ==> after.burst_tokens == 9
                && after.burst_permits_since_reset == 1 && after.total_permits_since_reset == 1
                && after.next_permit_at == now
            &&& s.answer(now) is Granted && !idle ==> after.burst_tokens == s.burst_tokens - 1
                && after.burst_permits_since_reset == s.burst_permits_since_reset + 1
                && after.total_permits_since_reset == s.total_permits_since_reset + 1
                && after.schedule_generation == s.schedule_generation && after.next_permit_at
                == larger(s.next_permit_at as int, now as int)
        }),
{
}

/// A slot of the paced schedule is the first free one: it lies at the end of the delay after the
/// slot handed out before it, or now where that is over. A slot handed out before anything else
/// changed begins when the schedule says so.
pub proof fn law_slots_follow_each_other(s: RateLimiterInner, now: u128, later: u128)
    requires
        s.wf(),
        s.has_room(now),
        now <= later,
        s.answer(now) is Paced,
        s.after_request(now).has_room(later),
        s.after_request(now).answer(later) is Paced,
    ensures
        ({
            let first = now + s.answer(now)->Paced_0.wait;
            let after = s.after_request(now);
            let second = later + after.answer(later)->Paced_0.wait;
            &&& s.cooldown_until is None ==> first == larger(s.next_permit_at as int, now as int)
            &&& s.cooldown_until is Some ==> first == now
            &&& second == larger(first + after.current_delay, later as int)
            &&& after.answer(later)->Paced_0.generation == s.answer(now)->Paced_0.generation
            &&& after.reserved_permits == s.reserved_permits + 1
            &&& after.burst_tokens == 0
            &&& after.total_permits_since_reset == s.total_permits_since_reset
        }),
{
}

/// A request leaves what was observed alone: the successes, the blocks, and what was granted before
/// them. It moves the delay and the cooldown only back to their baseline, five minutes after the
/// last block.
pub proof fn law_request_observes_nothing(s: RateLimiterInner, now: u128)
    requires
        s.wf(),
        s.has_room(now),
    ensures
        ({
            let after = s.after_request(now);
            let recovers = s.last_block_at is Some && now - s.last_block_at->0 >= 300_000_000_000
                && !(s.answer(now) is Cooldown);
            &&& after.total_successful_chapters == s.total_successful_chapters
            &&& after.consecutive_successes == s.consecutive_successes
            &&& after.total_blocks_hit == s.total_blocks_hit
            &&& after.min_burst_before_block == s.min_burst_before_block
            &&& after.min_total_before_block == s.min_total_before_block
            &&& after.last_burst_permits_before_block == s.last_burst_permits_before_block
            &&& after.last_total_permits_before_block == s.last_total_permits_before_block
            &&& recovers ==> after.current_delay == 200_000_000 && after.current_cooldown
                == 30_000_000_000 && after.last_block_at is None
            &&& !recovers ==> after.current_delay == s.current_delay && after.current_cooldown
                == s.current_cooldown && after.last_block_at == s.last_block_at
            &&& after.max_burst_achieved == larger(
                s.max_burst_achieved as int,
                after.burst_permits_since_reset as int,
            )
        }),
{
}

/// A downloaded chapter counts, and the twentieth in a row relaxes the pace: a quarter of what the
/// delay exceeds 200 ms by comes off, but 25 ms at least, and ten seconds of the cooldown, down to
/// 30 s. The schedule, the permits and the blocks are left alone.
pub proof fn law_successes_relax_the_pace(s: RateLimiterInner)
    requires
        s.wf(),
        s.total_successful_chapters < usize::MAX,
    ensures
        ({
            let after = s.after_success();
            let relaxes = s.consecutive_successes == 19;
            let excess = s.current_delay - 200_000_000;
            &&& after.total_successful_chapters == s.total_successful_chapters + 1
            &&& !relaxes ==> after.consecutive_successes == s.consecutive_successes + 1
                && after.current_delay == s.current_delay && after.current_cooldown
                == s.current_cooldown
            &&& relaxes ==> after.consecutive_successes == 0
            &&& relaxes && excess <= 25_000_000 ==> after.current_delay == 200_000_000
            &&& relaxes && 25_000_000 < excess <= 100_000_000 ==> after.current_delay
                == s.current_delay - 25_000_000
            &&& relaxes && excess > 100_000_000 ==> after.current_delay == s.current_delay - excess
                / 4
            &&& relaxes && s.current_cooldown >= 40_000_000_000 ==> after.current_cooldown
                == s.current_cooldown - 10_000_000_000
            &&& relaxes && s.current_cooldown < 40_000_000_000 ==> after.current_cooldown
                == 30_000_000_000
            &&& after == (RateLimiterInner {
                total_successful_chapters: after.total_successful_chapters,
                consecutive_successes: after.consecutive_successes,
                current_delay: after.current_delay,
                current_cooldown: after.current_cooldown,
                ..s
            })
        }),
{
}

/// What a new block records: what was granted since the last reset, and the smallest such numbers
/// that ever preceded a block, where they are positive. The burst and the successes in a row are
/// gone; the chapters downloaded so far, the largest burst and the workers that wait are not.
pub proof fn law_block_is_recorded(s: RateLimiterInner, retry_after: Option<u128>, now: u128)
    requires
        s.wf(),
        s.can_block(retry_after, now),
        s.cooldown_until is None || s.cooldown_until->0 <= now,
    ensures
        ({
            let after = s.after_block(retry_after, now);
            let burst = s.burst_permits_since_reset;
            let total = s.total_permits_since_reset;
            &&& after.last_burst_permits_before_block == burst
            &&& after.last_total_permits_before_block == total
            &&& burst == 0 ==> after.min_burst_before_block == s.min_burst_before_block
            &&& total == 0 ==> after.min_total_before_block == s.min_total_before_block
            &&& burst > 0 ==> (after.min_burst_before_block matches Some(m) && m <= burst && (m
                == burst || s.min_burst_before_block == Some(m)) && (s.min_burst_before_block matches Some(
                b,
            ) ==> m <= b))
            &&& total > 0 ==> (after.min_total_before_block matches Some(m) && m <= total && (m
                == total || s.min_total_before_block == Some(m)) && (s.min_total_before_block matches Some(
                b,
            ) ==> m <= b))
            &&& after.burst_tokens == 0
            &&& after.burst_permits_since_reset == 0
            &&& after.total_permits_since_reset == 0
            &&& after.consecutive_successes == 0
            &&& after.last_block_at == Some(now)
            &&& after.last_permit_granted_at == now
            &&& Some(after.next_permit_at) == after.cooldown_until
            &&& after.total_successful_chapters == s.total_successful_chapters
            &&& after.max_burst_achieved == s.max_burst_achieved
            &&& after.reserved_permits == s.reserved_permits
        }),
{
}

/// A worker that comes back takes its reservation off and nothing else; only where its permit is
/// granted is that counted. A worker that gives up changes nothing but the number of reservations.
pub proof fn law_return_changes_little(s: RateLimiterInner, r: Reservation, now: u128)
    requires
        s.wf(),
        s.reserved_permits > 0,
        s.total_permits_since_reset < usize::MAX,
    ensures
        ({
            let after = s.after_wait(r, now);
            &&& after.reserved_permits == s.reserved_permits - 1
            &&& !s.honours(r) ==> after == (RateLimiterInner {
                reserved_permits: after.reserved_permits,
                ..s
            })
            &&& s.honours(r) ==> after == (RateLimiterInner {
                reserved_permits: after.reserved_permits,
                total_permits_since_reset: (s.total_permits_since_reset + 1) as usize,
                last_permit_granted_at: now,
                ..s
            })
            &&& s.released() == (RateLimiterInner {
                reserved_permits: after.reserved_permits,
                ..s
            })
            &&& s.honours(r) <==> r.generation == s.schedule_generation && s.cooldown_until is None
        }),
{
}

/// A limiter begins without a history: a full burst, the shortest delay and cooldown, nobody
/// waiting, and nothing counted. Its first ten requests are granted at once, whenever they come.
pub proof fn law_new_limiter_grants_a_burst(now: u128, times: Seq<u128>)
    requires
        now >= 16_000_000_000,
        now + 2_000_000_000 <= u128::MAX,
        times.len() <= 10,
        forall|i: int|
            0 <= i < times.len() ==> now <= #[trigger] times[i] && times[i] + 2_000_000_000
                <= u128::MAX,
    ensures
        ({
            let calls = Seq::new(times.len(), |i: int| LimiterCall::Request { now: times[i] });
            let s = RateLimiterInner::initial(now).after_calls(calls);
            &&& RateLimiterInner::initial(now).admits_all(calls)
            &&& s.wf()
            &&& s.burst_tokens >= 10 - times.len()
            &&& s.cooldown_until is None
            &&& s.reserved_permits == 0
            &&& s.next_permit_at + 2_000_000_000 <= u128::MAX
            &&& s.total_permits_since_reset <= times.len()
            &&& s.total_blocks_hit == 0 && s.total_successful_chapters == 0
            &&& s.min_burst_before_block is None && s.min_total_before_block is None
            &&& s.current_delay == 200_000_000 && s.current_cooldown == 30_000_000_000
            &&& s.last_block_at is None
            &&& times.len() < 10 ==> forall|t: u128|
                t + 2_000_000_000 <= u128::MAX ==> (#[trigger] s.answer(t)) is Granted
        }),
    decreases times.len(),
{
    let calls = Seq::new(times.len(), |i: int| LimiterCall::Request { now: times[i] });
    if times.len() > 0 {
        let shorter = times.drop_last();
        assert forall|i: int| 0 <= i < shorter.len() implies now <= #[trigger] shorter[i]
            && shorter[i] + 2_000_000_000 <= u128::MAX by {
            assert(shorter[i] == times[i]);
        }
        law_new_limiter_grants_a_burst(now, shorter);
        assert(calls.drop_last() =~= Seq::new(
            shorter.len(),
            |i: int| LimiterCall::Request { now: shorter[i] },
        ));
        let t = times[times.len() - 1];
        assert(calls.last() == (LimiterCall::Request { now: t }));
        let before = RateLimiterInner::initial(now).after_calls(calls.drop_last());
        assert(before.answer(t) is Granted);
        assert(before.has_room(t));
        lemma_call_keeps_order(before, calls.last(), 0);
        law_who_starts_at_once(before, t);
        law_request_observes_nothing(before, t);
        assert(RateLimiterInner::initial(now).after_calls(calls) == before.after_request(t));
    } else {
        assert(calls =~= Seq::empty());
    }
}

/// Spans are counted in nanoseconds. The span since a moment is nothing where that lies ahead.
pub proof fn law_spans(n: u64, now: u128, earlier: u128, a: int, b: int)
    ensures
        ms(n) == n * 1_000_000,
        secs(n) == n * 1_000_000_000,
        now >= earlier ==> since(now, earlier) + earlier == now,
        now <= earlier ==> since(now, earlier) == 0,
        larger(a, b) >= a && larger(a, b) >= b,
        larger(a, b) == a || larger(a, b) == b,
        smaller(a, b) <= a && smaller(a, b) <= b,
        smaller(a, b) == a || smaller(a, b) == b,
{
}

/// A permit can be asked for as long as the counters and the timeline have room for it, with two
/// seconds to spare.
pub proof fn law_room_for_a_permit(s: RateLimiterInner, now: u128)
    ensures
        s.has_room(now) <==> s.total_permits_since_reset < usize::MAX && s.reserved_permits
            < usize::MAX && now + 2_000_000_000 <= u128::MAX && s.next_permit_at + 2_000_000_000
            <= u128::MAX,
{
}

/// A block can be recorded while a cooldown is in force, and otherwise as long as the blocks can be
/// counted and the cooldown, which is at most three minutes, or half as long again as the last one,
/// or as long as the server asks for, comes to its end on the timeline.
pub proof fn law_room_for_a_block(s: RateLimiterInner, retry_after: Option<u128>, now: u128)
    requires
        s.wf(),
    ensures
        s.cooldown_until is Some && now < s.cooldown_until->0 ==> s.can_block(retry_after, now),
        s.total_blocks_hit < usize::MAX && (retry_after matches Some(ra) ==> ra
            <= 18_446_744_073_709_551_615_999_999_999 && now + ra <= u128::MAX) && now
            + 180_000_000_000 <= u128::MAX && now + s.current_cooldown * 3 / 2 <= u128::MAX
            ==> s.can_block(retry_after, now),
{
}

/// What a block brings, in numbers: the first in five minutes a cooldown of 30 s, each further one
/// half as long again as the last, up to three minutes or the last one where that was longer, and
/// never less than the server asks for. The delay rises by 150 ms, up to two seconds. While a
/// cooldown is in force a block changes nothing.
pub proof fn law_what_a_block_brings(s: RateLimiterInner, retry_after: Option<u128>, now: u128)
    requires
        s.wf(),
        s.can_block(retry_after, now),
    ensures
        ({
            let after = s.after_block(retry_after, now);
            let asked: int = if retry_after is Some {
                retry_after->0 as int
            } else {
                0
            };
            let recent = s.last_block_at matches Some(t) && now - t < 300_000_000_000;
            let again = s.current_cooldown * 3 / 2;
            let most: int = if s.current_cooldown > 180_000_000_000 {
                s.current_cooldown as int
            } else {
                180_000_000_000
            };
            let cooling = s.cooldown_until is Some && now < s.cooldown_until->0;
            &&& cooling ==> after == s
            &&& !cooling ==> {
                &&& after.cooldown_until == Some((now + after.current_cooldown) as u128)
                &&& after.current_cooldown >= asked
                &&& !recent && asked <= 30_000_000_000 ==> after.current_cooldown == 30_000_000_000
                &&& !recent && asked > 30_000_000_000 ==> after.current_cooldown == asked
                &&& recent && again <= most && asked <= again ==> after.current_cooldown == again
                &&& recent && again > most && asked <= most ==> after.current_cooldown == most
                &&& recent && asked > again ==> after.current_cooldown == asked
                &&& recent && asked > most ==> after.current_cooldown == asked
                &&& s.current_delay <= 1_850_000_000 ==> after.current_delay == s.current_delay
                    + 150_000_000
                &&& s.current_delay > 1_850_000_000 ==> after.current_delay == 2_000_000_000
                &&& after.total_blocks_hit == s.total_blocks_hit + 1
                &&& after.schedule_generation != s.schedule_generation
            }
        }),
{
}

/// A request that is given a slot takes that slot and nothing else: what was granted, and when, is
/// left alone, and so are the slots of the workers that wait. Where the request lifts a cooldown, the
/// end of that counts as the last grant. Giving a slot back where nobody waits changes nothing.
pub proof fn law_slot_changes_little(s: RateLimiterInner, now: u128)
    requires
        s.wf(),
        s.has_room(now),
        s.answer(now) is Paced,
    ensures
        ({
            let after = s.after_request(now);
            &&& after.cooldown_until is None
            &&& s.cooldown_until is None ==> after.last_permit_granted_at == s.last_permit_granted_at
                && after.schedule_generation == s.schedule_generation
            &&& s.cooldown_until matches Some(until) ==> after.last_permit_granted_at == until
            &&& after.schedule_generation == s.answer(now)->Paced_0.generation
            &&& after.burst_permits_since_reset == s.burst_permits_since_reset
            &&& after.total_permits_since_reset == s.total_permits_since_reset
            &&& after.max_burst_achieved == s.max_burst_achieved
            &&& after.burst_tokens == s.burst_tokens
            &&& s.reserved_permits == 0 ==> s.released() == s
        }),
{
}

} // verus!
