//! Brings the times of another computer's frames onto the local clock.
use vstd::prelude::*;

verus! {

/// The time of a clock that never runs backwards, in microseconds.
pub fn monotonic_us(seconds: u64, nanoseconds: u64) -> (r: u64)
    requires
        seconds * 1_000_000 + nanoseconds / 1000 <= u64::MAX,
    ensures
        r == seconds * 1_000_000 + nanoseconds / 1000,
{
    seconds * 1_000_000 + nanoseconds / 1000
}

/// The smallest distance seen so far between arrival and source time, and the last time given.
pub struct RemoteClock {
    pub offset: Option<i128>,
    pub last: u64,
}

pub open spec fn smaller(a: int, b: int) -> int {
    if a <= b {
        a
    } else {
        b
    }
}

pub open spec fn larger(a: int, b: int) -> int {
    if a >= b {
        a
    } else {
        b
    }
}

impl RemoteClock {
    pub open spec fn wf(self) -> bool {
        self.offset matches Some(offset) ==> -u64::MAX <= offset <= u64::MAX
    }

    /// The offset after a frame of time `source` has arrived at `now`.
    pub open spec fn next_offset(self, source: u64, now: u64) -> int {
        match self.offset {
            Some(previous) => smaller(previous as int, now - source),
            None => now - source,
        }
    }

    /// The local time of a frame of time `source` that arrives at `now`: shifted by the smallest
    /// offset, but never before an earlier frame and never after `now`.
    pub open spec fn local_time(self, source: u64, now: u64) -> int {
        smaller(larger(larger(source + self.next_offset(source, now), 1), self.last as int), now as int)
    }

    pub fn map(&mut self, source: u64, now: u64) -> (time: u64)
        requires
            old(self).wf(),
        ensures
            time == old(self).local_time(source, now),
            final(self).offset matches Some(offset) && offset == old(self).next_offset(source, now),
            final(self).last == time,
            final(self).wf(),
    {
        let observed: i128 = now as i128 - source as i128;
        let offset: i128 = match self.offset {
            Some(previous) => if previous <= observed {
                previous
            } else {
                observed
            },
            None => observed,
        };
        self.offset = Some(offset);
        let shifted: i128 = source as i128 + offset;
        let at_least_one: u64 = if shifted >= 1 {
            shifted as u64
        } else {
            1
        };
        let ordered: u64 = if at_least_one >= self.last {
            at_least_one
        } else {
            self.last
        };
        let time: u64 = if ordered <= now {
            ordered
        } else {
            now
        };
        self.last = time;
        time
    }
}

impl Default for RemoteClock {
    fn default() -> (r: RemoteClock)
        ensures
            r.offset is None,
            r.last == 0,
            r.wf(),
    {
        RemoteClock { offset: None, last: 0 }
    }
}

/// As long as the local clock does not run backwards, neither do the times of frames, whatever
/// the other computer's clock does.
pub proof fn lemma_local_time_is_monotonic(clock: RemoteClock, source: u64, now: u64)
    requires
        clock.wf(),
        clock.last <= now,
    ensures
        clock.last <= clock.local_time(source, now) <= now,
{
}

/// Frames that arrive late in one batch keep the distance that they had at their source: with
/// the offset already known and both frames arriving no earlier than it says, their local times
/// differ exactly as their source times do.
pub proof fn lemma_batched_frames_keep_intervals(
    clock: RemoteClock,
    offset: i128,
    first: u64,
    first_now: u64,
    middle: RemoteClock,
    second: u64,
    second_now: u64,
)
    requires
        clock.wf(),
        clock.offset == Some(offset),
        first <= second,
        first_now - first >= offset,
        second_now - second >= offset,
        first + offset >= 1,
        first + offset >= clock.last,
        middle.offset matches Some(o) && o == clock.next_offset(first, first_now),
        middle.last == clock.local_time(first, first_now),
    ensures
        middle.local_time(second, second_now) - clock.local_time(first, first_now) == second - first,
{
}

} // verus!
