//! Frame pacing against a clock that the caller supplies.
//!
//! Time is a count of nanoseconds since an origin of the caller's choosing.
//! The pacer itself never reads a clock, so the same sequence of calls always
//! gives the same decisions.

use vstd::prelude::*;

verus! {

/// Nanoseconds in one second.
pub const NANOS_PER_SECOND: u64 = 1_000_000_000;

/// The shortest whole number of nanoseconds that is no less than one second
/// divided by `frames_per_second`: the least time between two frames at that
/// rate. It is never zero.
pub open spec fn spec_frame_interval(frames_per_second: int) -> int
    recommends
        frames_per_second > 0,
{
    (1_000_000_000int + frames_per_second - 1) / frames_per_second
}

/// Time that has passed from `since` to `now`. A clock reading that lies before
/// `since` counts as no time passed.
pub open spec fn spec_elapsed(since: int, now: int) -> int {
    if now >= since {
        now - since
    } else {
        0
    }
}

/// The least time between two frames at `frames_per_second`, in whole
/// nanoseconds, rounded up so that no frame comes before its time.
pub fn frame_interval(frames_per_second: u32) -> (interval: u64)
    requires
        frames_per_second > 0,
    ensures
        interval == spec_frame_interval(frames_per_second as int),
{
    let rate: u64 = frames_per_second as u64;
    (NANOS_PER_SECOND + (rate - 1)) / rate
}

/// The interval keeps the rate exactly: a span of whole nanoseconds is at
/// least the interval if and only if it is at least one second divided by
/// `frames_per_second`.
pub proof fn lemma_interval_is_rate(frames_per_second: int, elapsed: int)
    requires
        frames_per_second > 0,
    ensures
        elapsed >= spec_frame_interval(frames_per_second) <==> elapsed * frames_per_second
            >= 1_000_000_000,
        spec_frame_interval(frames_per_second) >= 1,
{
    let n = 1_000_000_000int;
    let f = frames_per_second;
    let q = (n + f - 1) / f;
    assert(q * f <= n + f - 1 && n + f - 1 < q * f + f) by (nonlinear_arith)
        requires
            f > 0,
            q == (n + f - 1) / f,
    ;
    assert(q >= 1) by (nonlinear_arith)
        requires
            f > 0,
            n > 0,
            n + f - 1 < q * f + f,
    ;
    if elapsed >= q {
        assert(elapsed * f >= q * f) by (nonlinear_arith)
            requires
                elapsed >= q,
                f > 0,
        ;
    } else {
        assert(elapsed * f <= q * f - f) by (nonlinear_arith)
            requires
                elapsed <= q - 1,
                f > 0,
        ;
    }
}

/// Decides when the next frame may be produced.
pub struct FramePacer {
    interval: u64,
    last_frame: u64,
}

impl FramePacer {
    /// The least time between two frames.
    pub closed spec fn spec_interval(&self) -> int {
        self.interval as int
    }

    /// The time of the last frame, or of construction where none was produced.
    pub closed spec fn spec_last_frame(&self) -> int {
        self.last_frame as int
    }

    /// Whether a frame may be produced at `now`.
    pub open spec fn spec_is_due(&self, now: int) -> bool {
        spec_elapsed(self.spec_last_frame(), now) >= self.spec_interval()
    }

    /// A pacer that lets a frame through every `interval` nanoseconds, the
    /// first one no sooner than `interval` after `now`.
    pub fn new(interval: u64, now: u64) -> (pacer: FramePacer)
        ensures
            pacer.spec_interval() == interval,
            pacer.spec_last_frame() == now,
    {
        FramePacer { interval, last_frame: now }
    }

    /// The least time between two frames.
    pub fn interval(&self) -> (interval: u64)
        ensures
            interval == self.spec_interval(),
    {
        self.interval
    }

    /// The time of the last frame, or of construction where none was produced.
    pub fn last_frame(&self) -> (at: u64)
        ensures
            at == self.spec_last_frame(),
    {
        self.last_frame
    }

    /// Whether a frame may be produced at `now`.
    pub fn is_due(&self, now: u64) -> (due: bool)
        ensures
            due == self.spec_is_due(now as int),
    {
        now.saturating_sub(self.last_frame) >= self.interval
    }

    /// Records that a frame was produced at `now`.
    pub fn mark(&mut self, now: u64)
        ensures
            final(self).spec_interval() == old(self).spec_interval(),
            final(self).spec_last_frame() == now,
    {
        self.last_frame = now;
    }
}

} // verus!
