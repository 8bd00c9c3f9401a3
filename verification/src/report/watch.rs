//! Watch sessions: runs repeated at a fixed interval, and the tally of their
//! verdicts.

use vstd::prelude::*;
use crate::text::{decimal, push_decimal, push_str, string_from_chars};
use crate::types::VerdictStatus;

verus! {

/// Number of runs of each verdict during a watch session.
#[derive(Debug, Clone, Copy, PartialEq, Eq, Structural)]
pub struct WatchStats {
    pub healthy: u32,
    pub degraded: u32,
    pub faulty: u32,
}

/// "{healthy} sain · {degraded} dégradé · {faulty} faulty".
pub open spec fn spec_summary(s: WatchStats) -> Seq<char> {
    decimal(s.healthy as nat) + " sain · "@ + decimal(s.degraded as nat) + " dégradé · "@ + decimal(
        s.faulty as nat,
    ) + " faulty"@
}

impl WatchStats {
    /// No run yet.
    pub fn new() -> (s: WatchStats)
        ensures
            s.healthy == 0 && s.degraded == 0 && s.faulty == 0,
    {
        WatchStats { healthy: 0, degraded: 0, faulty: 0 }
    }

    /// Counts one more run with the verdict `status`.
    pub fn record(&mut self, status: VerdictStatus)
        requires
            status == VerdictStatus::Healthy ==> old(self).healthy < u32::MAX,
            status == VerdictStatus::Degraded ==> old(self).degraded < u32::MAX,
            status == VerdictStatus::Faulty ==> old(self).faulty < u32::MAX,
        ensures
            final(self).healthy == old(self).healthy + (if status == VerdictStatus::Healthy { 1int } else { 0int }),
            final(self).degraded == old(self).degraded + (if status == VerdictStatus::Degraded { 1int } else { 0int }),
            final(self).faulty == old(self).faulty + (if status == VerdictStatus::Faulty { 1int } else { 0int }),
    {
        match status {
            VerdictStatus::Healthy => self.healthy = self.healthy + 1,
            VerdictStatus::Degraded => self.degraded = self.degraded + 1,
            VerdictStatus::Faulty => self.faulty = self.faulty + 1,
        }
    }

    /// The tally as one line.
    pub fn summary(&self) -> (r: String)
        ensures
            r@ == spec_summary(*self),
    {
        let mut out: Vec<char> = Vec::new();
        push_decimal(&mut out, self.healthy as u64);
        push_str(&mut out, " sain · ");
        push_decimal(&mut out, self.degraded as u64);
        push_str(&mut out, " dégradé · ");
        push_decimal(&mut out, self.faulty as u64);
        push_str(&mut out, " faulty");
        assert(out@ =~= spec_summary(*self));
        string_from_chars(&out)
    }
}

/// Every recorded run is counted once: the three counts grow by one in total.
pub proof fn lemma_record_counts_once(before: WatchStats, after: WatchStats, status: VerdictStatus)
    requires
        after.healthy == before.healthy + (if status == VerdictStatus::Healthy { 1int } else { 0int }),
        after.degraded == before.degraded + (if status == VerdictStatus::Degraded { 1int } else { 0int }),
        after.faulty == before.faulty + (if status == VerdictStatus::Faulty { 1int } else { 0int }),
    ensures
        after.healthy + after.degraded + after.faulty == before.healthy + before.degraded + before.faulty + 1,
{
}

/// What the watch loop does next.
#[derive(Debug, Clone, Copy, PartialEq, Eq, Structural)]
pub enum WatchStep {
    /// Run the diagnosis once more; this is run number `run`.
    Run { run: u64 },
    /// Stop the session.
    Stop,
}

/// State of a watch session: runs done, and the maximum (0 = no limit).
#[derive(Debug, Clone, Copy, PartialEq, Eq, Structural)]
pub struct WatchLoop {
    pub runs_done: u64,
    pub count: u64,
}

impl WatchLoop {
    /// A session of at most `count` runs (0 for no limit).
    pub fn new(count: u64) -> (w: WatchLoop)
        ensures
            w.runs_done == 0,
            w.count == count,
    {
        WatchLoop { runs_done: 0, count }
    }

    /// At each tick of the timer: stop when asked to, else start the next run.
    pub fn on_tick(&mut self, stop_requested: bool) -> (step: WatchStep)
        requires
            old(self).runs_done < u64::MAX,
        ensures
            final(self).count == old(self).count,
            stop_requested ==> step == WatchStep::Stop && final(self).runs_done == old(self).runs_done,
            !stop_requested ==> step == (WatchStep::Run { run: (old(self).runs_done + 1) as u64 })
                && final(self).runs_done == old(self).runs_done + 1,
    {
        if stop_requested {
            return WatchStep::Stop;
        }
        self.runs_done = self.runs_done + 1;
        WatchStep::Run { run: self.runs_done }
    }

    /// After a run: whether the session goes on (the limit is not reached
    /// and no stop was asked).
    pub fn continues(&self, stop_requested: bool) -> (r: bool)
        ensures
            r == (!(self.count > 0 && self.runs_done >= self.count) && !stop_requested),
    {
        !(self.count > 0 && self.runs_done >= self.count) && !stop_requested
    }
}

/// A session with a limit never makes more runs than the limit.
pub proof fn lemma_watch_limit(w: WatchLoop, stop_requested: bool)
    requires
        w.count > 0,
        w.runs_done >= w.count,
    ensures
        !(!(w.count > 0 && w.runs_done >= w.count) && !stop_requested),
{
}

/// Seconds between two runs of a session of `interval_min` minutes.
pub fn interval_seconds(interval_min: u64) -> (s: u64)
    requires
        interval_min * 60 <= u64::MAX,
    ensures
        s == interval_min * 60,
{
    interval_min * 60
}

} // verus!
