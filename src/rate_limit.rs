//! Per-opcode rate limiting over a time window.

use vstd::prelude::*;
use std::collections::HashMap;

verus! {

broadcast use vstd::std_specs::hash::group_hash_axioms;

/// Counters of one connection: messages per opcode since the last reset.
pub struct RateModel {
    pub counts: Map<u16, u32>,
    pub last_reset: u64,
}

/// The window has passed: strictly more than `reset_time` since the last reset.
pub open spec fn window_elapsed(last_reset: u64, now: u64, reset_time: u64) -> bool {
    now > last_reset && now - last_reset > reset_time
}

pub open spec fn count_of(counts: Map<u16, u32>, opcode: u16) -> u32 {
    if counts.contains_key(opcode) {
        counts[opcode]
    } else {
        0
    }
}

/// Counters after the reset check for a message arriving at `now`.
pub open spec fn after_reset(m: RateModel, now: u64, reset_time: u64) -> RateModel {
    if window_elapsed(m.last_reset, now, reset_time) {
        RateModel { counts: Map::empty(), last_reset: now }
    } else {
        m
    }
}

/// Whether a message of `opcode` arriving at `now` is delivered.
pub open spec fn rate_allows(m: RateModel, opcode: u16, now: u64, reset_time: u64, max: u32) -> bool {
    count_of(after_reset(m, now, reset_time).counts, opcode) < max
}

/// Counters after a message of `opcode` arriving at `now`.
pub open spec fn rate_next(m: RateModel, opcode: u16, now: u64, reset_time: u64, max: u32) -> RateModel {
    let base = after_reset(m, now, reset_time);
    if rate_allows(m, opcode, now, reset_time, max) {
        RateModel {
            counts: base.counts.insert(opcode, (count_of(base.counts, opcode) + 1) as u32),
            last_reset: base.last_reset,
        }
    } else {
        base
    }
}

/// Counters after messages of `opcode` arriving at `times`, in order.
pub open spec fn rate_after(m: RateModel, opcode: u16, times: Seq<u64>, reset_time: u64, max: u32) -> RateModel
    decreases times.len(),
{
    if times.len() == 0 {
        m
    } else {
        rate_next(
            rate_after(m, opcode, times.drop_last(), reset_time, max),
            opcode,
            times.last(),
            reset_time,
            max,
        )
    }
}

/// Which of the messages of `opcode` arriving at `times` are delivered.
pub open spec fn rate_delivered(m: RateModel, opcode: u16, times: Seq<u64>, reset_time: u64, max: u32) -> Seq<bool>
    decreases times.len(),
{
    if times.len() == 0 {
        Seq::empty()
    } else {
        rate_delivered(m, opcode, times.drop_last(), reset_time, max).push(
            rate_allows(
                rate_after(m, opcode, times.drop_last(), reset_time, max),
                opcode,
                times.last(),
                reset_time,
                max,
            ),
        )
    }
}

/// Message counters of one connection.
pub struct RateCounters {
    counts: HashMap<u16, u32>,
    last_reset: u64,
}

impl RateCounters {
    pub closed spec fn model(&self) -> RateModel {
        RateModel { counts: self.counts@, last_reset: self.last_reset }
    }

    /// Empty counters whose window opens at `now`.
    pub fn new(now: u64) -> (r: Self)
        ensures
            r.model() == (RateModel { counts: Map::empty(), last_reset: now }),
    {
        RateCounters { counts: HashMap::new(), last_reset: now }
    }

    pub fn last_reset(&self) -> (r: u64)
        ensures
            r == self.model().last_reset,
    {
        self.last_reset
    }
}

/// Drops messages of an opcode beyond `max_counter` per window of
/// `reset_time` milliseconds.
pub struct GameMessageRateLimit {
    reset_time: u64,
    max_counter: u32,
}

/// Window length in milliseconds.
pub const RESET_TIME_MS: u64 = 1000;

/// Messages of one opcode delivered per window.
pub const MAX_COUNTER: u32 = 10;

impl GameMessageRateLimit {
    pub closed spec fn spec_reset_time(&self) -> u64 {
        self.reset_time
    }

    pub closed spec fn spec_max_counter(&self) -> u32 {
        self.max_counter
    }

    /// One second, ten messages.
    pub fn new() -> (r: Self)
        ensures
            r.spec_reset_time() == RESET_TIME_MS,
            r.spec_max_counter() == MAX_COUNTER,
    {
        GameMessageRateLimit { reset_time: RESET_TIME_MS, max_counter: MAX_COUNTER }
    }

    pub fn with_limits(reset_time: u64, max_counter: u32) -> (r: Self)
        ensures
            r.spec_reset_time() == reset_time,
            r.spec_max_counter() == max_counter,
    {
        GameMessageRateLimit { reset_time, max_counter }
    }

    /// Whether a message of `opcode` arriving at `now` (milliseconds) is
    /// delivered; the counters are reset first when the window has passed,
    /// and counted on delivery.
    pub fn decode(&self, counters: &mut RateCounters, opcode: u16, now: u64) -> (r: bool)
        ensures
            r == rate_allows(
                old(counters).model(),
                opcode,
                now,
                self.spec_reset_time(),
                self.spec_max_counter(),
            ),
            final(counters).model() == rate_next(
                old(counters).model(),
                opcode,
                now,
                self.spec_reset_time(),
                self.spec_max_counter(),
            ),
    {
        if now > counters.last_reset && now - counters.last_reset > self.reset_time {
            counters.counts.clear();
            counters.last_reset = now;
        }
        let count: u32 = match counters.counts.get(&opcode) {
            Some(c) => *c,
            None => 0,
        };
        if count >= self.max_counter {
            return false;
        }
        counters.counts.insert(opcode, count + 1);
        true
    }
}

/// Within one window, of messages of one opcode sent to fresh counters the
/// first `max` are delivered and the rest dropped; once the window has
/// passed, a message is delivered again.
pub proof fn lemma_rate_limit_window(
    t0: u64,
    opcode: u16,
    times: Seq<u64>,
    later: u64,
    reset_time: u64,
    max: u32,
)
    requires
        max > 0,
        forall|k: int| 0 <= k < times.len() ==> t0 <= #[trigger] times[k] && times[k] - t0 <= reset_time,
    ensures
        ({
            let m0 = RateModel { counts: Map::empty(), last_reset: t0 };
            &&& rate_delivered(m0, opcode, times, reset_time, max) == Seq::new(
                times.len(),
                |k: int| k < max,
            )
            &&& window_elapsed(t0, later, reset_time) ==> rate_allows(
                rate_after(m0, opcode, times, reset_time, max),
                opcode,
                later,
                reset_time,
                max,
            )
        }),
{
    let m0 = RateModel { counts: Map::empty(), last_reset: t0 };
    lemma_rate_in_window(t0, opcode, times, reset_time, max);
    assert(rate_delivered(m0, opcode, times, reset_time, max) =~= Seq::new(
        times.len(),
        |k: int| k < max,
    ));
}

proof fn lemma_rate_in_window(t0: u64, opcode: u16, times: Seq<u64>, reset_time: u64, max: u32)
    requires
        max > 0,
        forall|k: int| 0 <= k < times.len() ==> t0 <= #[trigger] times[k] && times[k] - t0 <= reset_time,
    ensures
        ({
            let m0 = RateModel { counts: Map::empty(), last_reset: t0 };
            let m = rate_after(m0, opcode, times, reset_time, max);
            &&& m.last_reset == t0
            &&& count_of(m.counts, opcode) == if times.len() < max {
                times.len()
            } else {
                max as nat
            }
            &&& rate_delivered(m0, opcode, times, reset_time, max).len() == times.len()
            &&& forall|k: int|
                0 <= k < times.len() ==> #[trigger] rate_delivered(
                    m0,
                    opcode,
                    times,
                    reset_time,
                    max,
                )[k] == (k < max)
        }),
    decreases times.len(),
{
    if times.len() > 0 {
        let init = times.drop_last();
        assert forall|k: int| 0 <= k < init.len() implies t0 <= #[trigger] init[k] && init[k] - t0
            <= reset_time by {
            assert(init[k] == times[k]);
        }
        lemma_rate_in_window(t0, opcode, init, reset_time, max);
        let t = times.last();
        assert(t == times[times.len() - 1]);
    }
}

} // verus!
