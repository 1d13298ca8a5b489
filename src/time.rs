//! Frame timing and timers.
//!
//! Durations are counted in whole nanoseconds. The clock is read through
//! `std::time::Instant`; everything computed from a reading is done by
//! functions that take the reading as an argument.

use std::time::Instant;
use vstd::prelude::*;

verus! {

#[verifier::external_type_specification]
#[verifier::external_body]
pub struct ExInstant(Instant);

/// Relies on `Instant::now`: reads the monotonic clock. Nothing is promised
/// of the value.
#[verifier::external_body]
fn clock_now() -> Instant {
    Instant::now()
}

/// Relies on `Instant::elapsed`: the time since `origin` on the monotonic
/// clock, in nanoseconds. Nothing is promised of the value.
#[verifier::external_body]
fn nanos_since(origin: &Instant) -> u128 {
    origin.elapsed().as_nanos()
}

/// `a + b`, or the longest span (`u64::MAX` nanoseconds) if that is less.
pub open spec fn saturating_sum(a: nat, b: nat) -> nat {
    if a + b <= u64::MAX {
        a + b
    } else {
        u64::MAX as nat
    }
}

/// `a - b`, or zero if `b` is the greater.
pub open spec fn saturating_diff(a: nat, b: nat) -> nat {
    if a >= b {
        (a - b) as nat
    } else {
        0
    }
}

/// A span of time in whole nanoseconds.
#[derive(Clone, Copy, Debug, PartialEq, Eq, Structural)]
pub struct Duration {
    nanos: u64,
}

impl View for Duration {
    type V = nat;

    /// The span in nanoseconds.
    closed spec fn view(&self) -> nat {
        self.nanos as nat
    }
}

impl Duration {
    /// The empty span.
    pub fn zero() -> (d: Duration)
        ensures
            d@ == 0,
    {
        Duration { nanos: 0 }
    }

    pub fn from_nanos(nanos: u64) -> (d: Duration)
        ensures
            d@ == nanos,
    {
        Duration { nanos }
    }

    pub fn from_millis(millis: u64) -> (d: Duration)
        requires
            millis * 1_000_000 <= u64::MAX,
        ensures
            d@ == millis * 1_000_000,
    {
        Duration { nanos: millis * 1_000_000 }
    }

    pub fn from_secs(secs: u64) -> (d: Duration)
        requires
            secs * 1_000_000_000 <= u64::MAX,
        ensures
            d@ == secs * 1_000_000_000,
    {
        Duration { nanos: secs * 1_000_000_000 }
    }

    pub fn as_nanos(&self) -> (r: u64)
        ensures
            r == self@,
    {
        self.nanos
    }

    pub fn is_zero(&self) -> (r: bool)
        ensures
            r == (self@ == 0),
    {
        self.nanos == 0
    }

    /// The sum, or the longest span if the sum does not fit.
    pub fn saturating_add(self, other: Duration) -> (d: Duration)
        ensures
            d@ == saturating_sum(self@, other@),
    {
        Duration { nanos: self.nanos.saturating_add(other.nanos) }
    }

    /// The difference, or zero if `other` is the longer span.
    pub fn saturating_sub(self, other: Duration) -> (d: Duration)
        ensures
            d@ == saturating_diff(self@, other@),
    {
        Duration { nanos: self.nanos.saturating_sub(other.nanos) }
    }
}

/// The frame clock: how long the last frame took, how long since start-up,
/// how many frames have passed, and the durations of the latest frames.
pub struct TimeState {
    startup_time: Instant,
    last_frame_time: Duration,
    delta_time: Duration,
    elapsed_time: Duration,
    frame_count: u64,
    frame_time_history: Vec<Duration>,
    max_history: usize,
}

/// The sum of the spans in `s`, in nanoseconds.
pub open spec fn total_nanos(s: Seq<Duration>) -> nat
    decreases s.len(),
{
    if s.len() == 0 {
        0
    } else {
        total_nanos(s.drop_last()) + s.last()@
    }
}

/// How many frame durations the history keeps.
pub const FRAME_HISTORY_LEN: usize = 60;

impl Default for TimeState {
    /// Start the clock now, with no frame yet.
    fn default() -> (t: Self)
        ensures
            t.wf(),
            t.frame_count_spec() == 0,
            t.history_spec().len() == 0,
    {
        TimeState::new()
    }
}

impl TimeState {
    /// The time of the last frame, counted from start-up.
    pub closed spec fn last_frame_spec(self) -> Duration {
        self.last_frame_time
    }

    /// The duration of the last frame.
    pub closed spec fn delta_spec(self) -> Duration {
        self.delta_time
    }

    /// The time from start-up to the last frame.
    pub closed spec fn elapsed_spec(self) -> Duration {
        self.elapsed_time
    }

    /// The number of frames since start-up.
    pub closed spec fn frame_count_spec(self) -> u64 {
        self.frame_count
    }

    /// The durations of the latest frames, oldest first.
    pub closed spec fn history_spec(self) -> Seq<Duration> {
        self.frame_time_history@
    }

    /// The history holds at most `FRAME_HISTORY_LEN` durations.
    pub closed spec fn wf(self) -> bool {
        &&& self.max_history == FRAME_HISTORY_LEN
        &&& self.frame_time_history@.len() <= FRAME_HISTORY_LEN
    }

    /// Start the clock now, with no frame yet.
    pub fn new() -> (t: Self)
        ensures
            t.wf(),
            t.last_frame_spec()@ == 0,
            t.delta_spec()@ == 0,
            t.elapsed_spec()@ == 0,
            t.frame_count_spec() == 0,
            t.history_spec().len() == 0,
    {
        TimeState {
            startup_time: clock_now(),
            last_frame_time: Duration::zero(),
            delta_time: Duration::zero(),
            elapsed_time: Duration::zero(),
            frame_count: 0,
            frame_time_history: Vec::new(),
            max_history: FRAME_HISTORY_LEN,
        }
    }

    /// Record a frame at `now`, the time since start-up: the last frame took
    /// from the previous one to `now` (nothing, if `now` is earlier), and its
    /// duration joins the history, dropping the oldest beyond the limit.
    pub fn update_at(&mut self, now: Duration)
        requires
            old(self).wf(),
            old(self).frame_count_spec() < u64::MAX,
        ensures
            final(self).wf(),
            final(self).delta_spec()@ == saturating_diff(now@, old(self).last_frame_spec()@),
            final(self).elapsed_spec() == now,
            final(self).last_frame_spec() == now,
            final(self).frame_count_spec() == old(self).frame_count_spec() + 1,
            final(self).history_spec() == if old(self).history_spec().len() < FRAME_HISTORY_LEN {
                old(self).history_spec().push(final(self).delta_spec())
            } else {
                old(self).history_spec().push(final(self).delta_spec()).drop_first()
            },
    {
        self.delta_time = now.saturating_sub(self.last_frame_time);
        self.elapsed_time = now;
        self.last_frame_time = now;
        self.frame_count = self.frame_count + 1;
        self.frame_time_history.push(self.delta_time);
        if self.frame_time_history.len() > self.max_history {
            self.frame_time_history.remove(0);
        }
        assert(self.frame_time_history@ =~= if old(self).history_spec().len() < FRAME_HISTORY_LEN {
            old(self).history_spec().push(self.delta_time)
        } else {
            old(self).history_spec().push(self.delta_time).drop_first()
        });
    }

    /// Record a frame now; see `update_at`.
    pub fn update(&mut self)
        requires
            old(self).wf(),
            old(self).frame_count_spec() < u64::MAX,
        ensures
            final(self).wf(),
            final(self).frame_count_spec() == old(self).frame_count_spec() + 1,
            final(self).elapsed_spec() == final(self).last_frame_spec(),
            final(self).delta_spec()@ == saturating_diff(
                final(self).last_frame_spec()@,
                old(self).last_frame_spec()@,
            ),
    {
        let nanos = nanos_since(&self.startup_time);
        let now = if nanos > u64::MAX as u128 {
            Duration { nanos: u64::MAX }
        } else {
            Duration { nanos: nanos as u64 }
        };
        self.update_at(now);
    }

    /// The duration of the last frame.
    pub fn delta(&self) -> (r: Duration)
        ensures
            r == self.delta_spec(),
    {
        self.delta_time
    }

    /// The time from start-up to the last frame.
    pub fn elapsed(&self) -> (r: Duration)
        ensures
            r == self.elapsed_spec(),
    {
        self.elapsed_time
    }

    /// The number of frames since start-up.
    pub fn frame_count(&self) -> (r: u64)
        ensures
            r == self.frame_count_spec(),
    {
        self.frame_count
    }

    /// The durations of the latest frames, oldest first.
    pub fn frame_time_history(&self) -> (r: &[Duration])
        ensures
            r@ == self.history_spec(),
    {
        self.frame_time_history.as_slice()
    }

    /// The mean duration of the frames in the history, rounded down; zero
    /// when the history is empty.
    pub fn average_frame_time(&self) -> (r: Duration)
        requires
            self.wf(),
        ensures
            self.history_spec().len() == 0 ==> r@ == 0,
            self.history_spec().len() > 0 ==> r@ == total_nanos(self.history_spec())
                / self.history_spec().len(),
    {
        let n = self.frame_time_history.len();
        if n == 0 {
            return Duration::zero();
        }
        let mut total: u128 = 0;
        let mut i: usize = 0;
        while i < n
            invariant
                n == self.frame_time_history@.len(),
                n <= FRAME_HISTORY_LEN,
                i <= n,
                total == total_nanos(self.frame_time_history@.subrange(0, i as int)),
                total <= i * (u64::MAX as nat),
            decreases n - i,
        {
            proof {
                let s = self.frame_time_history@.subrange(0, i + 1);
                assert(s.drop_last() =~= self.frame_time_history@.subrange(0, i as int));
            }
            total = total + self.frame_time_history[i].nanos as u128;
            i = i + 1;
        }
        assert(self.frame_time_history@.subrange(0, n as int) =~= self.frame_time_history@);
        let mean = total / (n as u128);
        assert(mean <= u64::MAX) by (nonlinear_arith)
            requires
                mean == total / (n as u128),
                total <= n * (u64::MAX as nat),
                n > 0,
        ;
        Duration { nanos: mean as u64 }
    }

    /// Restart the clock now, with no frame yet.
    pub fn reset(&mut self)
        requires
            old(self).wf(),
        ensures
            final(self).wf(),
            final(self).last_frame_spec()@ == 0,
            final(self).delta_spec()@ == 0,
            final(self).elapsed_spec()@ == 0,
            final(self).frame_count_spec() == 0,
            final(self).history_spec().len() == 0,
    {
        self.startup_time = clock_now();
        self.last_frame_time = Duration::zero();
        self.delta_time = Duration::zero();
        self.elapsed_time = Duration::zero();
        self.frame_count = 0;
        self.frame_time_history.clear();
    }

    /// Whether at most one frame has passed.
    pub fn is_first_frame(&self) -> (r: bool)
        ensures
            r == (self.frame_count_spec() <= 1),
    {
        self.frame_count <= 1
    }
}

/// Counts a span of time down, once or over and over.
#[derive(Clone, Debug)]
pub struct Timer {
    duration: Duration,
    elapsed: Duration,
    repeating: bool,
    finished: bool,
}

impl Timer {
    /// The span the timer counts.
    pub closed spec fn duration_spec(self) -> Duration {
        self.duration
    }

    /// The time counted so far in the current round.
    pub closed spec fn elapsed_spec(self) -> Duration {
        self.elapsed
    }

    /// Whether the timer starts over when it runs out.
    pub closed spec fn repeating_spec(self) -> bool {
        self.repeating
    }

    /// Whether the timer has run out (a repeating one never stays so).
    pub closed spec fn finished_spec(self) -> bool {
        self.finished
    }

    /// A timer of `duration`, at zero and not finished.
    pub fn new(duration: Duration, repeating: bool) -> (t: Self)
        ensures
            t.duration_spec() == duration,
            t.elapsed_spec()@ == 0,
            t.repeating_spec() == repeating,
            !t.finished_spec(),
    {
        Timer { duration, elapsed: Duration::zero(), repeating, finished: false }
    }

    /// A timer that runs out once.
    pub fn once(duration: Duration) -> (t: Self)
        ensures
            t.duration_spec() == duration,
            t.elapsed_spec()@ == 0,
            !t.repeating_spec(),
            !t.finished_spec(),
    {
        Timer::new(duration, false)
    }

    /// A timer that starts over each time it runs out.
    pub fn repeating(duration: Duration) -> (t: Self)
        ensures
            t.duration_spec() == duration,
            t.elapsed_spec()@ == 0,
            t.repeating_spec(),
            !t.finished_spec(),
    {
        Timer::new(duration, true)
    }

    /// Count `delta` more (saturating at the longest span) and say whether
    /// the timer ran out on this tick. A one-shot timer that has run out
    /// stays as it is; a repeating one starts over from zero.
    pub fn tick(&mut self, delta: Duration) -> (r: bool)
        ensures
            final(self).duration_spec() == old(self).duration_spec(),
            final(self).repeating_spec() == old(self).repeating_spec(),
            ({
                let t = *old(self);
                let sum = saturating_sum(t.elapsed_spec()@, delta@);
                if t.finished_spec() && !t.repeating_spec() {
                    !r && *final(self) == t
                } else if sum >= t.duration_spec()@ {
                    &&& r
                    &&& final(self).elapsed_spec()@ == if t.repeating_spec() {
                        0
                    } else {
                        sum
                    }
                    &&& final(self).finished_spec() == !t.repeating_spec()
                } else {
                    &&& !r
                    &&& final(self).elapsed_spec()@ == sum
                    &&& final(self).finished_spec() == t.finished_spec()
                }
            }),
    {
        if self.finished && !self.repeating {
            return false;
        }
        self.elapsed = self.elapsed.saturating_add(delta);
        if self.elapsed.nanos >= self.duration.nanos {
            self.finished = true;
            if self.repeating {
                self.elapsed = Duration::zero();
                self.finished = false;
            }
            true
        } else {
            false
        }
    }

    /// Whether the timer has run out.
    pub fn just_finished(&self) -> (r: bool)
        ensures
            r == self.finished_spec(),
    {
        self.finished
    }

    /// The time left in the current round; zero once it has run out.
    pub fn remaining(&self) -> (r: Duration)
        ensures
            r@ == saturating_diff(self.duration_spec()@, self.elapsed_spec()@),
    {
        self.duration.saturating_sub(self.elapsed)
    }

    /// Back to zero, not finished.
    pub fn reset(&mut self)
        ensures
            final(self).duration_spec() == old(self).duration_spec(),
            final(self).repeating_spec() == old(self).repeating_spec(),
            final(self).elapsed_spec()@ == 0,
            !final(self).finished_spec(),
    {
        self.elapsed = Duration::zero();
        self.finished = false;
    }

    /// The span the timer counts.
    pub fn duration(&self) -> (r: Duration)
        ensures
            r == self.duration_spec(),
    {
        self.duration
    }

    /// The time counted so far in the current round.
    pub fn elapsed(&self) -> (r: Duration)
        ensures
            r == self.elapsed_spec(),
    {
        self.elapsed
    }
}

} // verus!
