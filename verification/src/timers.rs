//! Polling timers: how often the viewer asks the orchestrator for fresh
//! snapshots.
use vstd::prelude::*;

use std::time::{Duration, Instant};

use crate::clock::{read_clock, ClockReading};

verus! {

#[verifier::external_type_specification]
#[verifier::external_body]
pub struct ExInstant(Instant);

/// The time from `earlier` to `later`, zero when `later` is not after
/// `earlier`.
pub uninterp spec fn duration_since(later: Instant, earlier: Instant) -> Duration;

/// `Instant::saturating_duration_since`: the time from `earlier` to
/// `later`. Claimed: the result depends on the two instants alone.
#[verifier::external_body]
pub(crate) fn duration_between(later: &Instant, earlier: &Instant) -> (d: Duration)
    ensures
        d == duration_since(*later, *earlier),
{
    later.saturating_duration_since(*earlier)
}

/// The length of a duration in nanoseconds.
pub uninterp spec fn duration_nanos(d: Duration) -> u128;

/// `Duration::as_nanos`: the whole length of `d` in nanoseconds. Claimed:
/// the result depends on `d` alone.
#[verifier::external_body]
pub(crate) fn duration_as_nanos(d: &Duration) -> (n: u128)
    ensures
        n == duration_nanos(*d),
{
    d.as_nanos()
}

/// The nanoseconds from `earlier` to `later`.
pub open spec fn nanos_since(later: Instant, earlier: Instant) -> u128 {
    duration_nanos(duration_since(later, earlier))
}

/// Nanoseconds in a millisecond.
pub const NANOS_PER_MILLI: u128 = 1_000_000u128;

/// The interval at which every snapshot is polled, in milliseconds.
pub const POLL_INTERVAL_MS: u64 = 200u64;

/// Whether an interval of `interval_ms` milliseconds has passed once
/// `elapsed_nanos` nanoseconds have gone by.
pub open spec fn interval_elapsed(elapsed_nanos: u128, interval_ms: u64) -> bool {
    elapsed_nanos >= interval_ms * 1_000_000
}

/// Whether an interval of `interval_ms` milliseconds has passed once
/// `elapsed_nanos` nanoseconds have gone by.
pub fn poll_due(elapsed_nanos: u128, interval_ms: u64) -> (due: bool)
    ensures
        due == interval_elapsed(elapsed_nanos, interval_ms),
{
    elapsed_nanos >= (interval_ms as u128) * NANOS_PER_MILLI
}

/// One check of a timer started at `timer`, given how long ago that was
/// and the time now: whether it fires, and where the timer stands after.
pub open spec fn timer_step(timer: Instant, interval_ms: u64, elapsed_nanos: u128, now: Instant) -> (
    bool,
    Instant,
) {
    if interval_elapsed(elapsed_nanos, interval_ms) {
        (true, now)
    } else {
        (false, timer)
    }
}

/// One timer check, given how long ago the timer was started and the time
/// now: when the interval has passed, the timer restarts at `now` and the
/// answer is `true`; otherwise the timer stays and the answer is `false`.
pub fn restart_if_due(timer: &mut Instant, interval_ms: u64, elapsed_nanos: u128, now: Instant) -> (due: bool)
    ensures
        due == interval_elapsed(elapsed_nanos, interval_ms),
        *final(timer) == (if due { now } else { *old(timer) }),
        (due, *final(timer)) == timer_step(*old(timer), interval_ms, elapsed_nanos, now),
{
    if poll_due(elapsed_nanos, interval_ms) {
        *timer = now;
        true
    } else {
        false
    }
}

/// Checks one timer against the clock: reads the time now, and when the
/// interval has passed since the timer was started, restarts it then and
/// answers `true`; otherwise leaves it as it is.
fn poll_timer(timer: &mut Instant, interval_ms: u64) -> (due: bool)
    ensures
        !due ==> *final(timer) == *old(timer),
        exists|now: ClockReading|
            (due, *final(timer)) == #[trigger] timer_step(
                *old(timer),
                interval_ms,
                nanos_since(now.time(), *old(timer)),
                now.time(),
            ),
{
    let reading = read_clock();
    let now = reading.instant();
    let nanos = duration_as_nanos(&duration_between(&now, timer));
    let due = restart_if_due(timer, interval_ms, nanos, now);
    assert((due, *timer) == timer_step(
        *old(timer),
        interval_ms,
        nanos_since(reading.time(), *old(timer)),
        reading.time(),
    ));
    due
}

/// When each kind of snapshot was last polled, and how often it is polled.
pub struct PollingTimers {
    pub planet_snapshot_timer: Instant,
    pub planet_snapshot_interval_ms: u64,
    pub explorer_snapshot_timer: Instant,
    pub explorer_snapshot_interval_ms: u64,
    pub explorer_position_timer: Instant,
    pub explorer_position_interval_ms: u64,
}

impl PollingTimers {
    /// The intervals of the three timers.
    pub open spec fn intervals(&self) -> (u64, u64, u64) {
        (
            self.planet_snapshot_interval_ms,
            self.explorer_snapshot_interval_ms,
            self.explorer_position_interval_ms,
        )
    }

    /// A check of the planet snapshot timer, given how long ago it was
    /// started and the time now.
    pub open spec fn planet_snapshot_step(self, elapsed_nanos: u128, now: Instant) -> (bool, Self) {
        let (due, t) = timer_step(self.planet_snapshot_timer, self.planet_snapshot_interval_ms, elapsed_nanos, now);
        (due, PollingTimers { planet_snapshot_timer: t, ..self })
    }

    /// A check of the explorer snapshot timer, given how long ago it was
    /// started and the time now.
    pub open spec fn explorer_snapshot_step(self, elapsed_nanos: u128, now: Instant) -> (bool, Self) {
        let (due, t) = timer_step(self.explorer_snapshot_timer, self.explorer_snapshot_interval_ms, elapsed_nanos, now);
        (due, PollingTimers { explorer_snapshot_timer: t, ..self })
    }

    /// A check of the explorer position timer, given how long ago it was
    /// started and the time now.
    pub open spec fn explorer_position_step(self, elapsed_nanos: u128, now: Instant) -> (bool, Self) {
        let (due, t) = timer_step(self.explorer_position_timer, self.explorer_position_interval_ms, elapsed_nanos, now);
        (due, PollingTimers { explorer_position_timer: t, ..self })
    }

    /// All three timers start now, each with an interval of 200 ms.
    pub fn new() -> (t: Self)
        ensures
            t.intervals() == (POLL_INTERVAL_MS, POLL_INTERVAL_MS, POLL_INTERVAL_MS),
            exists|a: ClockReading, b: ClockReading, c: ClockReading|
                #![trigger a.time(), b.time(), c.time()]
                t.planet_snapshot_timer == a.time() && t.explorer_snapshot_timer == b.time()
                    && t.explorer_position_timer == c.time(),
    {
        let a = read_clock();
        let b = read_clock();
        let c = read_clock();
        PollingTimers {
            planet_snapshot_timer: a.instant(),
            planet_snapshot_interval_ms: POLL_INTERVAL_MS,
            explorer_snapshot_timer: b.instant(),
            explorer_snapshot_interval_ms: POLL_INTERVAL_MS,
            explorer_position_timer: c.instant(),
            explorer_position_interval_ms: POLL_INTERVAL_MS,
        }
    }

    /// Returns `true` (and restarts the timer) when it is time to poll
    /// planet snapshots. Only the planet timer can change.
    pub fn should_poll_planet_snapshots(&mut self) -> (due: bool)
        ensures
            exists|now: ClockReading|
                (due, *final(self)) == #[trigger] old(self).planet_snapshot_step(
                    nanos_since(now.time(), old(self).planet_snapshot_timer),
                    now.time(),
                ),
            final(self).intervals() == old(self).intervals(),
            final(self).explorer_snapshot_timer == old(self).explorer_snapshot_timer,
            final(self).explorer_position_timer == old(self).explorer_position_timer,
            !due ==> *final(self) == *old(self),
    {
        let due = poll_timer(&mut self.planet_snapshot_timer, self.planet_snapshot_interval_ms);
        proof {
            let n = choose|n: ClockReading|
                (due, self.planet_snapshot_timer) == #[trigger] timer_step(
                    old(self).planet_snapshot_timer,
                    old(self).planet_snapshot_interval_ms,
                    nanos_since(n.time(), old(self).planet_snapshot_timer),
                    n.time(),
                );
            assert((due, *self) == old(self).planet_snapshot_step(
                nanos_since(n.time(), old(self).planet_snapshot_timer),
                n.time(),
            ));
        }
        due
    }

    /// Returns `true` (and restarts the timer) when it is time to poll
    /// explorer snapshots. Only the explorer snapshot timer can change.
    pub fn should_poll_explorer_snapshots(&mut self) -> (due: bool)
        ensures
            exists|now: ClockReading|
                (due, *final(self)) == #[trigger] old(self).explorer_snapshot_step(
                    nanos_since(now.time(), old(self).explorer_snapshot_timer),
                    now.time(),
                ),
            final(self).intervals() == old(self).intervals(),
            final(self).planet_snapshot_timer == old(self).planet_snapshot_timer,
            final(self).explorer_position_timer == old(self).explorer_position_timer,
            !due ==> *final(self) == *old(self),
    {
        let due = poll_timer(&mut self.explorer_snapshot_timer, self.explorer_snapshot_interval_ms);
        proof {
            let n = choose|n: ClockReading|
                (due, self.explorer_snapshot_timer) == #[trigger] timer_step(
                    old(self).explorer_snapshot_timer,
                    old(self).explorer_snapshot_interval_ms,
                    nanos_since(n.time(), old(self).explorer_snapshot_timer),
                    n.time(),
                );
            assert((due, *self) == old(self).explorer_snapshot_step(
                nanos_since(n.time(), old(self).explorer_snapshot_timer),
                n.time(),
            ));
        }
        due
    }

    /// Returns `true` (and restarts the timer) when it is time to poll
    /// explorer positions. Only the explorer position timer can change.
    pub fn should_poll_explorer_positions(&mut self) -> (due: bool)
        ensures
            exists|now: ClockReading|
                (due, *final(self)) == #[trigger] old(self).explorer_position_step(
                    nanos_since(now.time(), old(self).explorer_position_timer),
                    now.time(),
                ),
            final(self).intervals() == old(self).intervals(),
            final(self).planet_snapshot_timer == old(self).planet_snapshot_timer,
            final(self).explorer_snapshot_timer == old(self).explorer_snapshot_timer,
            !due ==> *final(self) == *old(self),
    {
        let due = poll_timer(&mut self.explorer_position_timer, self.explorer_position_interval_ms);
        proof {
            let n = choose|n: ClockReading|
                (due, self.explorer_position_timer) == #[trigger] timer_step(
                    old(self).explorer_position_timer,
                    old(self).explorer_position_interval_ms,
                    nanos_since(n.time(), old(self).explorer_position_timer),
                    n.time(),
                );
            assert((due, *self) == old(self).explorer_position_step(
                nanos_since(n.time(), old(self).explorer_position_timer),
                n.time(),
            ));
        }
        due
    }
}

/// After the planet snapshot poll fires and restarts its timer at `r`, the
/// next check fires exactly when at least one interval has passed since
/// `r`; with a positive interval it does not fire again at once.
pub proof fn lemma_poll_fires_at_most_once_per_interval(
    s: PollingTimers,
    e1: u128,
    r: Instant,
    e2: u128,
    c2: Instant,
)
    ensures
        ({
            let (d1, s1) = s.planet_snapshot_step(e1, r);
            &&& d1 ==> s1.planet_snapshot_timer == r
            &&& d1 ==> (s1.planet_snapshot_step(e2, c2).0 <==> interval_elapsed(
                e2,
                s.planet_snapshot_interval_ms,
            ))
            &&& d1 && s.planet_snapshot_interval_ms > 0 ==> !s1.planet_snapshot_step(0, c2).0
        }),
{
}

/// The timers do not affect each other: checking the explorer snapshot
/// timer and then the planet snapshot timer gives the same answers and the
/// same timers as checking them the other way round, with the same clock
/// readings.
pub proof fn lemma_polls_independent(s: PollingTimers, ea: u128, na: Instant, eb: u128, nb: Instant)
    ensures
        ({
            let (da1, sa1) = s.explorer_snapshot_step(ea, na);
            let (db1, sa2) = sa1.planet_snapshot_step(eb, nb);
            let (db2, sb1) = s.planet_snapshot_step(eb, nb);
            let (da2, sb2) = sb1.explorer_snapshot_step(ea, na);
            da1 == da2 && db1 == db2 && sa2 == sb2
        }),
{
}

/// With a positive interval, the position poll fires at most once for one
/// reading of the clock: if a check fires, the timer restarts at that
/// instant and a second check at the same instant does not fire; if it does
/// not fire, a second check at the same instant does not either.
pub proof fn lemma_position_poll_once_per_instant(s: PollingTimers, e: u128, c: Instant)
    requires
        s.explorer_position_interval_ms > 0,
    ensures
        ({
            let (d1, s1) = s.explorer_position_step(e, c);
            let e2: u128 = if d1 { 0 } else { e };
            let (d2, s2) = s1.explorer_position_step(e2, c);
            !(d1 && d2) && (!d1 ==> !d2)
        }),
{
}

} // verus!
