//! Adaptive coalescing of bursts: lines wait until the source has been quiet
//! for a threshold that shrinks while lines keep arriving, so a busy stream
//! is redrawn in batches and a sparse one at once. Times are microseconds.
use vstd::prelude::*;

verus! {

/// The wait after the first line of a burst.
pub const BASE_THRESHOLD_US: u64 = 50_000;

/// The shortest wait.
pub const MIN_THRESHOLD_US: u64 = 5_000;

pub struct RenderThrottle {
    /// Lines received and not yet handed out.
    pub pending: Vec<String>,
    /// When the burst began, while one is pending.
    pub burst_start: Option<u64>,
    /// The current wait.
    pub threshold_us: u64,
}

/// The wait after one more line: seven tenths of it, not below the minimum.
pub open spec fn decayed(t: u64) -> u64 {
    let d = (t as int * 7 / 10) as u64;
    if d < MIN_THRESHOLD_US {
        MIN_THRESHOLD_US
    } else {
        d
    }
}

impl RenderThrottle {
    pub open spec fn wf(&self) -> bool {
        &&& MIN_THRESHOLD_US <= self.threshold_us <= BASE_THRESHOLD_US
        &&& (self.burst_start is None <==> self.pending@.len() == 0)
    }

    pub fn new() -> (r: RenderThrottle)
        ensures
            r.wf(),
            r.pending@.len() == 0,
            r.burst_start is None,
            r.threshold_us == BASE_THRESHOLD_US,
    {
        RenderThrottle { pending: Vec::new(), burst_start: None, threshold_us: BASE_THRESHOLD_US }
    }

    /// A line arrived at `now`: it waits, a burst begins if none was under
    /// way, and the wait shrinks.
    pub fn on_line(&mut self, line: String, now: u64)
        requires
            old(self).wf(),
        ensures
            final(self).wf(),
            final(self).pending@ == old(self).pending@.push(line),
            final(self).burst_start == if old(self).burst_start is None {
                Some(now)
            } else {
                old(self).burst_start
            },
            final(self).threshold_us == decayed(old(self).threshold_us),
    {
        self.pending.push(line);
        if self.burst_start.is_none() {
            self.burst_start = Some(now);
        }
        let d = self.threshold_us / 10 * 7 + self.threshold_us % 10 * 7 / 10;
        assert(d == (self.threshold_us as int * 7 / 10)) by (nonlinear_arith)
            requires
                d == self.threshold_us / 10 * 7 + self.threshold_us % 10 * 7 / 10,
        ;
        self.threshold_us = if d < MIN_THRESHOLD_US { MIN_THRESHOLD_US } else { d };
    }

    /// How long to wait at `now` for the next event before flushing: `None`
    /// while nothing is pending (wait for ever), else what is left of the
    /// threshold since the burst began.
    pub fn wait_time(&self, now: u64) -> (r: Option<u64>)
        requires
            self.wf(),
        ensures
            self.burst_start is None ==> r is None,
            self.burst_start matches Some(t) ==> r == Some(({
                let elapsed = if now >= t { now - t } else { 0 };
                if elapsed >= self.threshold_us { 0 } else { self.threshold_us - elapsed }
            }) as u64),
    {
        match self.burst_start {
            None => None,
            Some(t) => {
                let elapsed = if now >= t { now - t } else { 0 };
                Some(if elapsed >= self.threshold_us { 0 } else { self.threshold_us - elapsed })
            },
        }
    }

    /// The wait ran out: hands out the pending lines in arrival order and
    /// starts afresh.
    pub fn flush(&mut self) -> (r: Vec<String>)
        requires
            old(self).wf(),
        ensures
            final(self).wf(),
            r@ == old(self).pending@,
            final(self).pending@.len() == 0,
            final(self).burst_start is None,
            final(self).threshold_us == BASE_THRESHOLD_US,
    {
        let out = self.pending.split_off(0);
        self.burst_start = None;
        self.threshold_us = BASE_THRESHOLD_US;
        out
    }
}

} // verus!
