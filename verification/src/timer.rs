//! The repeating interval timer that paces spawning.

use vstd::prelude::*;

verus! {

/// Sum of a sequence of elapsed times.
pub open spec fn total_time(dts: Seq<u64>) -> nat
    decreases dts.len(),
{
    if dts.len() == 0 {
        0
    } else {
        total_time(dts.drop_last()) + dts.last() as nat
    }
}

/// What an [`IntervalTimer`] stands for: time gathered since it last fired,
/// and the interval at which it fires.
pub struct TimerModel {
    pub elapsed: nat,
    pub interval: nat,
}

impl TimerModel {
    /// Between ticks the gathered time stays short of the interval. A timer
    /// with interval zero fires on every tick and never gathers any.
    pub open spec fn wf(self) -> bool {
        self.elapsed < self.interval || self.elapsed == 0
    }

    /// A tick of `dt` completes the interval.
    pub open spec fn fires(self, dt: nat) -> bool {
        self.elapsed + dt >= self.interval
    }

    /// The timer after a tick of `dt`. On firing it starts over from zero:
    /// time beyond the interval is dropped, not carried into the next round.
    pub open spec fn advance(self, dt: nat) -> TimerModel {
        if self.fires(dt) {
            TimerModel { elapsed: 0, interval: self.interval }
        } else {
            TimerModel { elapsed: self.elapsed + dt, interval: self.interval }
        }
    }

    /// The timer after one tick for each of `dts`, in order.
    pub open spec fn after(self, dts: Seq<u64>) -> TimerModel
        decreases dts.len(),
    {
        if dts.len() == 0 {
            self
        } else {
            self.after(dts.drop_last()).advance(dts.last() as nat)
        }
    }

    /// Tick number `k` of the run `dts` fires.
    pub open spec fn fires_at(self, dts: Seq<u64>, k: int) -> bool {
        self.after(dts.take(k)).fires(dts[k] as nat)
    }
}

/// A repeating timer: it gathers elapsed time tick by tick, fires when the
/// interval is complete, and starts over.
#[derive(Clone, Copy, Debug)]
pub struct IntervalTimer {
    elapsed: u64,
    interval: u64,
}

impl View for IntervalTimer {
    type V = TimerModel;

    closed spec fn view(&self) -> TimerModel {
        TimerModel { elapsed: self.elapsed as nat, interval: self.interval as nat }
    }
}

impl IntervalTimer {
    /// A timer that has gathered nothing yet.
    pub fn new(interval: u64) -> (timer: IntervalTimer)
        ensures
            timer@ == (TimerModel { elapsed: 0, interval: interval as nat }),
            timer@.wf(),
    {
        IntervalTimer { elapsed: 0, interval }
    }

    /// The interval at which the timer fires.
    pub fn interval(&self) -> (interval: u64)
        ensures
            interval == self@.interval,
    {
        self.interval
    }

    /// Time gathered since the timer last fired.
    pub fn elapsed(&self) -> (elapsed: u64)
        ensures
            elapsed == self@.elapsed,
    {
        self.elapsed
    }

    /// Gathers `dt` and says whether the interval is complete. A sum beyond
    /// `u64::MAX` saturates, which fires like the exact sum.
    pub fn tick(&mut self, dt: u64) -> (fired: bool)
        requires
            old(self)@.wf(),
        ensures
            fired == old(self)@.fires(dt as nat),
            final(self)@ == old(self)@.advance(dt as nat),
            final(self)@.wf(),
    {
        let gathered: u64 = self.elapsed.saturating_add(dt);
        if gathered >= self.interval {
            self.elapsed = 0;
            true
        } else {
            self.elapsed = gathered;
            false
        }
    }
}

/// A tick keeps a well-formed timer well-formed, and a tick that fires leaves
/// nothing gathered.
pub proof fn lemma_advance_wf(timer: TimerModel, dt: nat)
    requires
        timer.wf(),
    ensures
        timer.advance(dt).wf(),
        timer.advance(dt).interval == timer.interval,
        timer.fires(dt) ==> timer.advance(dt).elapsed == 0,
{
}

/// While the gathered time plus all the elapsed time of a run stays short of
/// the interval, no tick of the run fires, and the run's time is all gathered.
pub proof fn lemma_timer_quiet(timer: TimerModel, dts: Seq<u64>)
    requires
        timer.elapsed + total_time(dts) < timer.interval,
    ensures
        forall|k: int| 0 <= k < dts.len() ==> !#[trigger] timer.fires_at(dts, k),
        timer.after(dts) == (TimerModel {
            elapsed: timer.elapsed + total_time(dts),
            interval: timer.interval,
        }),
    decreases dts.len(),
{
    if dts.len() > 0 {
        let front = dts.drop_last();
        lemma_timer_quiet(timer, front);
        assert forall|k: int| 0 <= k < dts.len() implies !#[trigger] timer.fires_at(dts, k) by {
            if k < front.len() {
                assert(front.take(k) =~= dts.take(k));
                assert(timer.fires_at(front, k) == timer.fires_at(dts, k));
            } else {
                assert(dts.take(k) =~= front);
            }
        }
    }
}

/// Once the gathered time plus the elapsed time of a run reaches the
/// interval, some tick of the run fires.
pub proof fn lemma_timer_due(timer: TimerModel, dts: Seq<u64>)
    requires
        dts.len() > 0,
        timer.elapsed + total_time(dts) >= timer.interval,
    ensures
        exists|k: int| 0 <= k < dts.len() && #[trigger] timer.fires_at(dts, k),
    decreases dts.len(),
{
    let front = dts.drop_last();
    let last = dts.len() - 1;
    if timer.elapsed + total_time(front) < timer.interval {
        lemma_timer_quiet(timer, front);
        assert(dts.take(last) =~= front);
        assert(timer.fires_at(dts, last));
    } else if front.len() == 0 {
        assert(dts.take(last) =~= front);
        assert(timer.fires_at(dts, last));
    } else {
        lemma_timer_due(timer, front);
        let k = choose|k: int| 0 <= k < front.len() && #[trigger] timer.fires_at(front, k);
        assert(front.take(k) =~= dts.take(k));
        assert(timer.fires_at(dts, k));
    }
}

} // verus!
