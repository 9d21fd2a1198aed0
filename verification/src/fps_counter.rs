use std::time::{Duration, Instant};
use vstd::prelude::*;

verus! {

/// A point on the monotonic clock.
#[verifier::external_type_specification]
#[verifier::external_body]
pub struct ExInstant(Instant);

/// `Instant::now`: the current point on the monotonic clock. Nothing is
/// claimed of it.
#[verifier::external_body]
fn now() -> Instant {
    Instant::now()
}

/// `Instant::duration_since`: the time from `earlier` to `later`, zero where
/// `earlier` is the later of the two. Nothing is claimed of it.
#[verifier::external_body]
fn time_between(later: &Instant, earlier: &Instant) -> Duration {
    later.duration_since(*earlier)
}

/// `Duration::as_nanos`: the length of `duration` in nanoseconds. Nothing is
/// claimed of it.
#[verifier::external_body]
fn nanos_of(duration: &Duration) -> u128 {
    duration.as_nanos()
}

/// One second in nanoseconds.
pub const NANOS_PER_SECOND: u128 = 1_000_000_000;

/// The whole number of frames per second when `frames` frames took `nanos`
/// nanoseconds, no more than a `u32` holds.
pub open spec fn frame_rate(frames: nat, nanos: nat) -> nat {
    let rate = (frames * NANOS_PER_SECOND) / (nanos as int);
    if rate > u32::MAX {
        u32::MAX as nat
    } else {
        rate as nat
    }
}

/// Counts frames and, once more than a second has passed, turns the count
/// into a rate.
pub struct FPSCounter {
    frame_count: usize,
    last_time: Instant,
    fps: u32,
}

impl FPSCounter {
    /// The frames counted since the rate was last computed.
    pub closed spec fn frames(&self) -> usize {
        self.frame_count
    }

    /// The time at which the rate was last computed.
    pub closed spec fn since(&self) -> Instant {
        self.last_time
    }

    pub closed spec fn spec_fps(&self) -> u32 {
        self.fps
    }

    /// The count with one more frame; a count that is full stays as it is.
    pub open spec fn frames_with_next(&self) -> usize {
        if self.frames() < usize::MAX {
            (self.frames() + 1) as usize
        } else {
            self.frames()
        }
    }

    /// The counter `self` after a frame that came `elapsed_nanos` after
    /// `self.since()`, at time `now`: the frame is counted, and if more than
    /// a second has passed the count becomes the rate and starts again.
    pub open spec fn counted(&self, post: &Self, now: Instant, elapsed_nanos: u128) -> bool {
        if elapsed_nanos > NANOS_PER_SECOND {
            &&& post.spec_fps() == frame_rate(self.frames_with_next() as nat, elapsed_nanos as nat)
            &&& post.frames() == 0
            &&& post.since() == now
        } else {
            &&& post.spec_fps() == self.spec_fps()
            &&& post.frames() == self.frames_with_next()
            &&& post.since() == self.since()
        }
    }

    /// A counter that starts now, with no frames and a rate of zero.
    pub fn new() -> (counter: Self)
        ensures
            counter.frames() == 0,
            counter.spec_fps() == 0,
    {
        FPSCounter { frame_count: 0, last_time: now(), fps: 0 }
    }

    /// Counts a frame that happens now.
    pub fn update(&mut self)
        ensures
            exists|now: Instant, elapsed_nanos: u128|
                old(self).counted(final(self), now, elapsed_nanos),
    {
        let now = now();
        let elapsed = time_between(&now, &self.last_time);
        let elapsed_nanos: u128 = nanos_of(&elapsed);
        self.record_frame(now, elapsed_nanos);
        assert(old(self).counted(&*self, now, elapsed_nanos));
    }

    /// Counts a frame that happens at `now`, `elapsed_nanos` nanoseconds
    /// after the rate was last computed.
    pub fn record_frame(&mut self, now: Instant, elapsed_nanos: u128)
        ensures
            old(self).counted(final(self), now, elapsed_nanos),
    {
        if self.frame_count < usize::MAX {
            self.frame_count = self.frame_count + 1;
        }
        if elapsed_nanos > NANOS_PER_SECOND {
            assert(self.frame_count * NANOS_PER_SECOND <= u128::MAX) by (nonlinear_arith)
                requires
                    self.frame_count <= u64::MAX,
                    NANOS_PER_SECOND == 1_000_000_000,
            ;
            let rate: u128 = (self.frame_count as u128) * NANOS_PER_SECOND / elapsed_nanos;
            self.fps = if rate > 0xffff_ffffu128 {
                0xffff_ffffu32
            } else {
                rate as u32
            };
            self.frame_count = 0;
            self.last_time = now;
        }
    }

    #[verifier::when_used_as_spec(spec_fps)]
    pub fn fps(&self) -> (fps: u32)
        ensures
            fps == self.spec_fps(),
    {
        self.fps
    }
}

impl Default for FPSCounter {
    fn default() -> (counter: Self)
        ensures
            counter.frames() == 0,
            counter.spec_fps() == 0,
    {
        FPSCounter::new()
    }
}

} // verus!
