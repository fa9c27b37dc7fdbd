//! A repeating interval timer that is fed elapsed time in milliseconds.

use vstd::prelude::*;

verus! {

/// Accumulates elapsed time and reports, once per call of [`Timer::tick`],
/// whether a whole interval has gone by.
///
/// The timer is its own mathematical model: contracts speak of its fields.
#[derive(Clone, Copy, Debug, PartialEq, Eq, Structural)]
pub struct Timer {
    /// Time gathered so far that no finished interval has used up.
    pub elapsed: u64,
    /// Length of one interval.
    pub interval: u64,
    /// Whether the latest call of `tick` found an interval complete.
    pub finished: bool,
}

impl Timer {
    /// `delta` can be added to the gathered time without leaving `u64`.
    pub open spec fn accepts(self, delta: u64) -> bool {
        self.elapsed + delta <= u64::MAX
    }

    /// The timer after `delta` more milliseconds: the time is added, and where
    /// the sum reaches the interval, one interval is taken off and the timer
    /// reports that it finished. A long delay is caught up one interval per
    /// call, never several at once.
    pub open spec fn ticked(self, delta: u64) -> Timer
        recommends
            self.accepts(delta),
    {
        let total = self.elapsed + delta;
        if total >= self.interval {
            Timer {
                elapsed: (total - self.interval) as u64,
                interval: self.interval,
                finished: true,
            }
        } else {
            Timer { elapsed: total as u64, interval: self.interval, finished: false }
        }
    }

    /// A timer of the given interval with no time gathered.
    pub fn new(interval: u64) -> (t: Timer)
        ensures
            t == (Timer { elapsed: 0, interval, finished: false }),
    {
        Timer { elapsed: 0, interval, finished: false }
    }

    /// Tells whether `delta` can be added without overflow.
    pub fn can_accept(&self, delta: u64) -> (b: bool)
        ensures
            b == self.accepts(delta),
    {
        delta <= u64::MAX - self.elapsed
    }

    /// Advances the timer by `delta` milliseconds.
    pub fn tick(&mut self, delta: u64)
        requires
            old(self).accepts(delta),
        ensures
            *final(self) == old(self).ticked(delta),
    {
        let total: u64 = self.elapsed + delta;
        if total >= self.interval {
            self.elapsed = total - self.interval;
            self.finished = true;
        } else {
            self.elapsed = total;
            self.finished = false;
        }
    }

    /// Whether the latest call of `tick` completed an interval.
    pub fn finished(&self) -> (b: bool)
        ensures
            b == self.finished,
    {
        self.finished
    }
}

/// Time is neither lost nor made: the gathered time after a tick, plus the
/// interval if the tick finished, is the gathered time before plus `delta`.
pub proof fn lemma_tick_conserves_time(t: Timer, delta: u64)
    requires
        t.accepts(delta),
    ensures
        t.ticked(delta).elapsed + (if t.ticked(delta).finished {
            t.interval as int
        } else {
            0
        }) == t.elapsed + delta,
        t.ticked(delta).finished <==> t.elapsed + delta >= t.interval,
        t.ticked(delta).interval == t.interval,
{
}

} // verus!
