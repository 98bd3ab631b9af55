//! Frame timing: how long frames took, and the mean over the last few.
//!
//! Times are whole numbers of a unit that the caller picks (nanoseconds, for
//! one), read from a clock that never runs backwards.

use std::collections::VecDeque;
use vstd::prelude::*;

verus! {

/// A stopwatch that adds up the spans between `enter` and `exit`.
#[derive(Clone, Copy, Debug, PartialEq, Eq, Structural)]
pub struct Timer {
    /// When the span under way was entered, if one is under way.
    pub enter: Option<u64>,
    /// The spans so far, added up.
    pub total: u64,
    /// How many spans were completed.
    pub calls: u64,
}

impl Timer {
    /// The stopwatch after a span that was entered at `entered` is left at
    /// `now`: the span is added to the total and counted, neither beyond what
    /// a machine word holds; a clock that ran backwards adds nothing.
    pub open spec fn stopped(self, entered: u64, now: u64) -> Timer {
        let span = if now >= entered {
            now - entered
        } else {
            0
        };
        Timer {
            enter: None,
            total: if self.total + span > u64::MAX {
                u64::MAX
            } else {
                (self.total + span) as u64
            },
            calls: if self.calls == u64::MAX {
                u64::MAX
            } else {
                (self.calls + 1) as u64
            },
        }
    }

    /// Enters a span at the time `now`.
    pub fn enter(&mut self, now: u64)
        ensures
            *final(self) == (Timer { enter: Some(now), ..*old(self) }),
    {
        self.enter = Some(now);
    }

    /// Leaves the span under way at the time `now`. Without a span under way
    /// nothing changes.
    pub fn exit(&mut self, now: u64)
        ensures
            *final(self) == match old(self).enter {
                Some(entered) => old(self).stopped(entered, now),
                None => *old(self),
            },
    {
        if let Some(entered) = self.enter {
            let span = if now >= entered {
                now - entered
            } else {
                0
            };
            self.total = self.total.saturating_add(span);
            self.calls = self.calls.saturating_add(1);
            self.enter = None;
        }
    }

    /// The total in units of a million: milliseconds, where the clock counts
    /// nanoseconds. Rounded down.
    pub fn to_msecs(&self) -> (ms: u64)
        ensures
            ms == self.total / 1_000_000,
    {
        self.total / 1_000_000
    }

    /// The mean span in units of a million, rounded down; `None` before the
    /// first span is completed.
    pub fn msecs_per_call(&self) -> (ms: Option<u64>)
        ensures
            ms == if self.calls == 0 {
                None
            } else {
                Some((self.total / 1_000_000) / self.calls)
            },
    {
        if self.calls == 0 {
            None
        } else {
            Some(self.to_msecs() / self.calls)
        }
    }
}

impl Default for Timer {
    /// A stopwatch that has measured nothing.
    fn default() -> (t: Timer)
        ensures
            t == (Timer { enter: None, total: 0, calls: 0 }),
    {
        Timer { enter: None, total: 0, calls: 0 }
    }
}

/// The values of a window, added up.
pub open spec fn sum_of(values: Seq<u64>) -> int
    decreases values.len(),
{
    if values.len() == 0 {
        0
    } else {
        sum_of(values.drop_last()) + values.last()
    }
}

/// The mean of the last values of a series: a window of at most `max` values
/// and their sum.
#[derive(Debug)]
pub struct SlidingAverage {
    pub q: VecDeque<u64>,
    pub sum: u128,
    pub max: usize,
}

/// The window after a value is appended: where the window holds exactly
/// `max` values the oldest leaves first. A window that holds more than `max`
/// values, or whose `max` is zero, only grows.
pub open spec fn slid(window: Seq<u64>, max: int, v: u64) -> Seq<u64> {
    if window.len() == max && window.len() > 0 {
        window.drop_first().push(v)
    } else {
        window.push(v)
    }
}

/// No more values than a machine can count add up to less than a sum can
/// hold.
proof fn lemma_sum_bounded(values: Seq<u64>)
    ensures
        0 <= sum_of(values) <= values.len() * u64::MAX,
    decreases values.len(),
{
    if values.len() > 0 {
        lemma_sum_bounded(values.drop_last());
        assert(values.len() * u64::MAX == values.drop_last().len() * u64::MAX + u64::MAX)
            by (nonlinear_arith)
            requires
                values.len() == values.drop_last().len() + 1,
        ;
    }
}

/// The sum of a window without its first value.
proof fn lemma_sum_drop_first(values: Seq<u64>)
    requires
        values.len() > 0,
    ensures
        sum_of(values.drop_first()) == sum_of(values) - values.first(),
    decreases values.len(),
{
    if values.len() > 1 {
        let shorter = values.drop_last();
        lemma_sum_drop_first(shorter);
        assert(values.drop_first().drop_last() =~= shorter.drop_first());
        assert(values.drop_first().last() == values.last());
        assert(shorter.first() == values.first());
    } else {
        assert(values.drop_first() =~= Seq::<u64>::empty());
        assert(values.drop_last() =~= Seq::<u64>::empty());
    }
}

impl SlidingAverage {
    /// The sum that is kept is the sum of the window.
    pub open spec fn wf(&self) -> bool {
        self.sum == sum_of(self.q@)
    }

    /// An empty window that keeps up to `max` values.
    pub fn new(max: usize) -> (s: SlidingAverage)
        ensures
            s.wf(),
            s.q@.len() == 0,
            s.max == max,
    {
        SlidingAverage { q: VecDeque::new(), sum: 0, max }
    }

    /// The value appended last, if there is one.
    pub fn last(&self) -> (v: Option<u64>)
        ensures
            v == if self.q@.len() == 0 {
                None
            } else {
                Some(self.q@.last())
            },
    {
        if self.q.len() == 0 {
            None
        } else {
            Some(self.q[self.q.len() - 1])
        }
    }

    /// Appends a value, letting the oldest go where the window is full, and
    /// returns the mean of the window, rounded down.
    pub fn append(&mut self, v: u64) -> (mean: u64)
        requires
            old(self).wf(),
            old(self).q@.len() < usize::MAX,
        ensures
            final(self).wf(),
            final(self).max == old(self).max,
            final(self).q@ == slid(old(self).q@, old(self).max as int, v),
            mean == sum_of(final(self).q@) / (final(self).q@.len() as int),
    {
        proof {
            lemma_sum_bounded(self.q@);
        }
        if self.q.len() == self.max {
            match self.q.pop_front() {
                Some(oldest) => {
                    proof {
                        lemma_sum_drop_first(old(self).q@);
                        lemma_sum_bounded(self.q@);
                        assert(self.q@ =~= old(self).q@.drop_first());
                    }
                    self.sum = self.sum - oldest as u128;
                },
                None => {},
            }
        }
        let ghost shorter = self.q@;
        self.q.push_back(v);
        proof {
            assert(self.q@.drop_last() =~= shorter);
            assert(shorter.len() * u64::MAX + u64::MAX <= usize::MAX * u64::MAX) by (nonlinear_arith)
                requires
                    shorter.len() < usize::MAX,
            ;
            assert(usize::MAX * u64::MAX <= 0xffff_ffff_ffff_ffff * 0xffff_ffff_ffff_ffff)
                by (nonlinear_arith)
                requires
                    usize::MAX <= 0xffff_ffff_ffff_ffff,
                    u64::MAX == 0xffff_ffff_ffff_ffff,
            ;
        }
        self.sum = self.sum + v as u128;
        proof {
            lemma_sum_bounded(self.q@);
            let n = self.q@.len() as int;
            assert(sum_of(self.q@) / n <= u64::MAX) by (nonlinear_arith)
                requires
                    0 <= sum_of(self.q@) <= n * u64::MAX,
                    n > 0,
            ;
        }
        let mean = self.sum / (self.q.len() as u128);
        mean as u64
    }
}

impl Default for SlidingAverage {
    /// An empty window over the last ten values.
    fn default() -> (s: SlidingAverage)
        ensures
            s.wf(),
            s.q@.len() == 0,
            s.max == 10,
    {
        SlidingAverage::new(10)
    }
}

/// The timing of a render: when it began, the stopwatch of its frames, and
/// the mean over the last frames.
#[derive(Debug)]
pub struct Timers {
    pub global: u64,
    pub frames_mean: SlidingAverage,
    pub frames: Timer,
}

impl Timers {
    /// The timing of a render that begins at the time `now`.
    pub fn new(now: u64) -> (t: Timers)
        ensures
            t.global == now,
            t.frames == (Timer { enter: None, total: 0, calls: 0 }),
            t.frames_mean.wf(),
            t.frames_mean.q@.len() == 0,
            t.frames_mean.max == 10,
    {
        Timers { global: now, frames_mean: SlidingAverage::default(), frames: Timer::default() }
    }

    /// A frame begins at the time `now`.
    pub fn enter(&mut self, now: u64)
        ensures
            final(self).frames == (Timer { enter: Some(now), ..old(self).frames }),
            final(self).global == old(self).global,
            final(self).frames_mean == old(self).frames_mean,
    {
        self.frames.enter(now);
    }

    /// The frame under way ends at the time `now`: its stopwatch is stopped,
    /// and what it added to the total of the frames is appended to the window
    /// of the last frames. That is the length of the frame, or nothing where
    /// no frame was under way.
    pub fn exit(&mut self, now: u64)
        requires
            old(self).frames_mean.wf(),
            old(self).frames_mean.q@.len() < usize::MAX,
        ensures
            final(self).global == old(self).global,
            final(self).frames == match old(self).frames.enter {
                Some(entered) => old(self).frames.stopped(entered, now),
                None => old(self).frames,
            },
            final(self).frames_mean.wf(),
            final(self).frames_mean.max == old(self).frames_mean.max,
            final(self).frames_mean.q@ == slid(
                old(self).frames_mean.q@,
                old(self).frames_mean.max as int,
                (final(self).frames.total - old(self).frames.total) as u64,
            ),
    {
        let before = self.frames.total;
        self.frames.exit(now);
        let after = self.frames.total;
        self.frames_mean.append(after - before);
    }

    /// The length of the last frame, if a frame has ended.
    pub fn last_frame(&self) -> (v: Option<u64>)
        ensures
            v == if self.frames_mean.q@.len() == 0 {
                None
            } else {
                Some(self.frames_mean.q@.last())
            },
    {
        self.frames_mean.last()
    }
}

} // verus!
