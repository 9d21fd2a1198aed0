use vstd::prelude::*;

verus! {

/// Turns a free-running clock into fixed simulation ticks. Times are whole
/// numbers of clock units; the unit is the caller's choice.
pub struct FixedFrames {
    step: u64,
    last_time: u64,
    first_frame: bool,
}

/// One call of [`FixedFrames::iter`] in progress: hands out the ticks that
/// are due at `current_time`, at most `max_frame_count` of them.
pub struct FixedFramesIterMut<'a> {
    /// The driver that this iterator advances.
    pub frames: &'a mut FixedFrames,
    pub current_time: u64,
    pub max_frame_count: usize,
    /// The number of calls of `next` that were not turned down by the limit.
    pub frame_index: usize,
}

/// The number of ticks that are due at `current` when the last tick was at
/// `last`: one per whole tick length that has passed, but no more than
/// `limit`. With a tick length of zero every call is due.
pub open spec fn ticks_due(step: u64, last: u64, current: u64, limit: nat) -> nat {
    if current < last {
        0
    } else if step == 0 {
        limit
    } else {
        let whole = ((current - last) / (step as int)) as nat;
        if whole < limit {
            whole
        } else {
            limit
        }
    }
}

/// The `count` ticks that follow a tick at `last`, one tick length apart.
pub open spec fn ticks_after(step: u64, last: u64, count: nat) -> Seq<u64> {
    Seq::new(count, |k: int| (last + (k + 1) * step) as u64)
}

/// With `passed` ticks handed out since `last`, one more is due exactly when
/// more than `passed` whole tick lengths fit between `last` and `current`.
proof fn lemma_next_due(step: u64, last: u64, current: u64, passed: nat)
    requires
        step > 0,
        last + passed * step <= current,
    ensures
        (current - (last + passed * step) >= step) <==> passed + 1 <= (current - last) / (
        step as int),
{
    let span = current - last;
    let whole = span / (step as int);
    vstd::arithmetic::div_mod::lemma_fundamental_div_mod(span, step as int);
    vstd::arithmetic::div_mod::lemma_mod_bound(span, step as int);
    if span - passed * step >= step {
        assert(passed + 1 <= whole) by (nonlinear_arith)
            requires
                span == step * whole + span % (step as int),
                0 <= span % (step as int) < step,
                span - passed * step >= step,
                step > 0,
        ;
    }
    if passed + 1 <= whole {
        assert(span - passed * step >= step) by (nonlinear_arith)
            requires
                span == step * whole + span % (step as int),
                0 <= span % (step as int),
                passed + 1 <= whole,
                step > 0,
        ;
    }
}

impl FixedFrames {
    /// The length of a tick.
    pub closed spec fn step(&self) -> u64 {
        self.step
    }

    /// The time of the last tick handed out.
    pub closed spec fn last_time(&self) -> u64 {
        self.last_time
    }

    /// No tick has been handed out yet.
    pub closed spec fn first_frame(&self) -> bool {
        self.first_frame
    }

    /// A tick is due at `current_time`: always on the first frame, and later
    /// when at least one tick length has passed since the last tick.
    pub open spec fn tick_due(&self, current_time: u64) -> bool {
        self.first_frame() || (current_time >= self.last_time() && current_time - self.last_time()
            >= self.step())
    }

    /// The time of the tick that is handed out when one is due: the current
    /// time on the first frame, one tick length after the last tick later.
    pub open spec fn tick_time(&self, current_time: u64) -> u64 {
        if self.first_frame() {
            current_time
        } else {
            (self.last_time() + self.step()) as u64
        }
    }

    /// A driver with tick length `time_step` that has not yet seen a frame.
    pub fn new(time_step: u64) -> (frames: Self)
        ensures
            frames.step() == time_step,
            frames.last_time() == 0,
            frames.first_frame(),
    {
        Self { step: time_step, last_time: 0, first_frame: true }
    }

    /// The ticks that one call hands out at `current_time` with at most
    /// `max` of them: on the first frame one tick at the current time, later
    /// one tick per whole tick length since the last tick.
    pub open spec fn emitted(&self, current_time: u64, max: nat) -> Seq<u64> {
        if max == 0 {
            Seq::<u64>::empty()
        } else if self.first_frame() {
            seq![current_time] + ticks_after(
                self.step(),
                current_time,
                ticks_due(self.step(), current_time, current_time, (max - 1) as nat),
            )
        } else {
            ticks_after(
                self.step(),
                self.last_time(),
                ticks_due(self.step(), self.last_time(), current_time, max),
            )
        }
    }

    /// Hands out, in order, every tick that is due at `current_time`, at
    /// most `max_frames` of them. The last tick handed out is remembered;
    /// lag beyond the limit is dropped.
    pub fn advance(&mut self, current_time: u64, max_frames: usize) -> (ticks: Vec<u64>)
        ensures
            ticks@ == old(self).emitted(current_time, max_frames as nat),
            final(self).step() == old(self).step(),
            final(self).first_frame() == (old(self).first_frame() && max_frames == 0),
            final(self).last_time() == if ticks@.len() == 0 {
                old(self).last_time()
            } else {
                ticks@.last()
            },
    {
        let ghost start = *self;
        let ghost lead: nat = if start.first_frame { 1 } else { 0 };
        let ghost base: u64 = if start.first_frame { current_time } else { start.last_time };
        let mut ticks: Vec<u64> = Vec::new();
        let mut frame_index: usize = 0;
        while frame_index < max_frames
            invariant_except_break
                frame_index == ticks@.len(),
            invariant
                ticks@.len() <= max_frames,
                self.step() == start.step(),
                lead == (if start.first_frame { 1nat } else { 0nat }),
                base == (if start.first_frame { current_time } else { start.last_time }),
                ticks@.len() == 0 ==> *self == start,
                ticks@.len() > 0 ==> {
                    &&& !self.first_frame()
                    &&& self.last_time() == ticks@.last()
                    &&& ticks@.len() >= lead
                    &&& ticks@.last() <= current_time
                    &&& ticks@.last() == base + (ticks@.len() - lead) * start.step
                    &&& ticks@.len() - lead <= ticks_due(
                        start.step,
                        base,
                        current_time,
                        (max_frames - lead) as nat,
                    )
                },
                start.first_frame && ticks@.len() > 0 ==> ticks@[0] == current_time,
                forall|k: int|
                    lead <= k < ticks@.len() ==> ticks@[k] == base + (k - lead + 1) * start.step,
            ensures
                ticks@ == start.emitted(current_time, max_frames as nat),
                self.step() == start.step(),
                ticks@.len() == 0 ==> *self == start,
                ticks@.len() > 0 ==> !self.first_frame() && self.last_time() == ticks@.last(),
                max_frames > 0 && start.first_frame ==> ticks@.len() > 0,
            decreases max_frames - frame_index,
        {
            let ghost passed: nat = if ticks@.len() >= lead {
                (ticks@.len() - lead) as nat
            } else {
                0nat
            };
            proof {
                if ticks@.len() > 0 && start.step > 0 {
                    lemma_next_due(start.step, base, current_time, passed);
                }
                if ticks@.len() == 0 && !start.first_frame && start.step > 0 && current_time
                    >= base {
                    lemma_next_due(start.step, base, current_time, 0);
                }
                assert((passed + 1) * start.step == passed * start.step + start.step)
                    by (nonlinear_arith);
                assert(0 * start.step == 0);
                assert(1 * start.step == start.step);
                if start.step == 0 {
                    assert(passed * start.step == 0) by (nonlinear_arith)
                        requires
                            start.step == 0,
                    ;
                }
            }
            frame_index = frame_index + 1;
            match self.poll(current_time) {
                Some(tick) => {
                    ticks.push(tick);
                },
                None => {
                    proof {
                        let expected = start.emitted(current_time, max_frames as nat);
                        assert(ticks@.len() == expected.len());
                        assert(ticks@ =~= expected);
                    }
                    break ;
                },
            }
        }
        proof {
            let expected = start.emitted(current_time, max_frames as nat);
            assert(ticks@.len() == expected.len());
            assert(ticks@ =~= expected);
        }
        ticks
    }

    /// The tick that is due at `current_time`, if one is; handing it out
    /// makes it the last tick.
    pub fn poll(&mut self, current_time: u64) -> (tick: Option<u64>)
        ensures
            final(self).step() == old(self).step(),
            old(self).tick_due(current_time) ==> {
                &&& tick == Some(old(self).tick_time(current_time))
                &&& final(self).last_time() == old(self).tick_time(current_time)
                &&& !final(self).first_frame()
            },
            !old(self).tick_due(current_time) ==> tick.is_none() && *final(self) == *old(self),
    {
        if self.first_frame {
            self.first_frame = false;
            self.last_time = current_time;
            Some(current_time)
        } else {
            if current_time >= self.last_time && current_time - self.last_time >= self.step {
                self.last_time = self.last_time + self.step;
                Some(self.last_time)
            } else {
                None
            }
        }
    }

    /// Starts handing out the ticks that are due at `current_time`, at most
    /// `max_frame_count` of them.
    pub fn iter(&mut self, current_time: u64, max_frame_count: usize) -> (it: FixedFramesIterMut<
        '_,
    >)
        ensures
            *it.frames == *old(self),
            *final(it.frames) == *final(self),
            it.current_time == current_time,
            it.max_frame_count == max_frame_count,
            it.frame_index == 0,
    {
        FixedFramesIterMut { frames: self, current_time, frame_index: 0, max_frame_count }
    }
}

impl<'a> FixedFramesIterMut<'a> {
    /// The next tick, if the limit is not reached and a tick is due. The
    /// call counts against the limit either way.
    pub fn next(&mut self) -> (tick: Option<u64>)
        ensures
            final(self).current_time == old(self).current_time,
            final(self).max_frame_count == old(self).max_frame_count,
            *final(final(self).frames) == *final(old(self).frames),
            final(self).frames.step() == old(self).frames.step(),
            old(self).frame_index >= old(self).max_frame_count ==> {
                &&& tick.is_none()
                &&& final(self).frame_index == old(self).frame_index
                &&& *final(self).frames == *old(self).frames
            },
            old(self).frame_index < old(self).max_frame_count ==> final(self).frame_index == old(
                self,
            ).frame_index + 1,
            old(self).frame_index < old(self).max_frame_count && old(self).frames.tick_due(
                old(self).current_time,
            ) ==> {
                &&& tick == Some(old(self).frames.tick_time(old(self).current_time))
                &&& final(self).frames.last_time() == old(self).frames.tick_time(
                    old(self).current_time,
                )
                &&& !final(self).frames.first_frame()
            },
            old(self).frame_index < old(self).max_frame_count && !old(self).frames.tick_due(
                old(self).current_time,
            ) ==> {
                &&& tick.is_none()
                &&& *final(self).frames == *old(self).frames
            },
    {
        if self.frame_index >= self.max_frame_count {
            return None;
        }
        self.frame_index = self.frame_index + 1;
        self.frames.poll(self.current_time)
    }
}

} // verus!
