//! Counting and pacing of a buffer pool benchmark run.
use vstd::prelude::*;

use std::time::{Duration, Instant};

verus! {

#[verifier::external_type_specification]
#[verifier::external_body]
pub struct ExInstant(Instant);

/// `Instant::now`: the current time of the monotonic clock; nothing is
/// promised of it.
pub assume_specification[ Instant::now ]() -> Instant;

/// `Instant::duration_since`: the time from `earlier` to `this`; it comes
/// from the clock, so nothing is promised of it.
pub assume_specification[ Instant::duration_since ](this: &Instant, earlier: Instant) -> Duration;

/// `Duration::as_nanos`: the whole nanoseconds of a duration. A duration is
/// opaque here, so nothing is promised of the number.
pub assume_specification[ Duration::as_nanos ](this: &Duration) -> u128;

/// Nanoseconds in a millisecond.
pub const NANOS_PER_MILLI: u128 = 1_000_000;

/// Least time in milliseconds between two reports.
pub const REPORT_INTERVAL_MS: u128 = 1000;

/// What one progress report shows.
pub struct Report {
    /// Time since the start of the run.
    pub elapsed_ns: u128,
    /// Operations counted since the start.
    pub cnt: u64,
    /// Operations counted since the previous report.
    pub new_cnt: u64,
    /// Time since the previous report.
    pub interval_ns: u128,
}

pub struct BpmMetrics {
    start_time: Instant,
    last_report_at_ns: u128,
    last_cnt: u64,
    cnt: u64,
    reporter: String,
    duration_ms: u64,
}

impl BpmMetrics {
    /// When the run started, by the monotonic clock.
    pub closed spec fn spec_start_time(&self) -> Instant {
        self.start_time
    }

    pub closed spec fn spec_cnt(&self) -> u64 {
        self.cnt
    }

    pub closed spec fn spec_last_cnt(&self) -> u64 {
        self.last_cnt
    }

    pub closed spec fn spec_last_report_at_ns(&self) -> u128 {
        self.last_report_at_ns
    }

    pub closed spec fn spec_duration_ms(&self) -> u64 {
        self.duration_ms
    }

    pub closed spec fn spec_reporter(&self) -> String {
        self.reporter
    }

    pub open spec fn wf(&self) -> bool {
        self.spec_last_cnt() <= self.spec_cnt()
    }

    /// Whether a run that started `elapsed_ns` ago has lasted longer than its
    /// duration.
    pub open spec fn finished_at(&self, elapsed_ns: u128) -> bool {
        elapsed_ns / NANOS_PER_MILLI > self.spec_duration_ms()
    }

    /// Whether a report is due `elapsed_ns` after the start.
    pub open spec fn report_due(&self, elapsed_ns: u128) -> bool {
        elapsed_ns / NANOS_PER_MILLI - self.spec_last_report_at_ns() / NANOS_PER_MILLI
            > REPORT_INTERVAL_MS
    }

    /// A run named `reporter` that lasts `duration_ms`, starting now.
    pub fn new(reporter: String, duration_ms: u64) -> (r: Self)
        ensures
            r.wf(),
            r.spec_cnt() == 0,
            r.spec_last_cnt() == 0,
            r.spec_last_report_at_ns() == 0,
            r.spec_duration_ms() == duration_ms,
            r.spec_reporter() == reporter,
    {
        BpmMetrics {
            start_time: Instant::now(),
            last_report_at_ns: 0,
            last_cnt: 0,
            cnt: 0,
            reporter,
            duration_ms,
        }
    }

    /// Counts one operation.
    pub fn tick(&mut self)
        requires
            old(self).wf(),
            old(self).spec_cnt() < u64::MAX,
        ensures
            final(self).wf(),
            final(self).spec_cnt() == old(self).spec_cnt() + 1,
            final(self).spec_start_time() == old(self).spec_start_time(),
            final(self).spec_last_cnt() == old(self).spec_last_cnt(),
            final(self).spec_last_report_at_ns() == old(self).spec_last_report_at_ns(),
            final(self).spec_duration_ms() == old(self).spec_duration_ms(),
            final(self).spec_reporter() == old(self).spec_reporter(),
    {
        self.cnt = self.cnt + 1;
    }

    /// Restarts the clock of the run; the counts stay.
    pub fn begin(&mut self)
        requires
            old(self).wf(),
        ensures
            final(self).wf(),
            final(self).spec_cnt() == old(self).spec_cnt(),
            final(self).spec_last_cnt() == old(self).spec_last_cnt(),
            final(self).spec_last_report_at_ns() == old(self).spec_last_report_at_ns(),
            final(self).spec_duration_ms() == old(self).spec_duration_ms(),
            final(self).spec_reporter() == old(self).spec_reporter(),
    {
        self.start_time = Instant::now();
    }

    /// Operations counted so far.
    pub fn cnt(&self) -> (r: u64)
        ensures
            r == self.spec_cnt(),
    {
        self.cnt
    }

    pub fn reporter(&self) -> (r: &String)
        ensures
            *r == self.spec_reporter(),
    {
        &self.reporter
    }

    /// The report due `elapsed_ns` after the start, if one is due; it
    /// becomes the previous report.
    pub fn report_at(&mut self, elapsed_ns: u128) -> (r: Option<Report>)
        requires
            old(self).wf(),
            elapsed_ns >= old(self).spec_last_report_at_ns(),
        ensures
            final(self).wf(),
            final(self).spec_cnt() == old(self).spec_cnt(),
            final(self).spec_start_time() == old(self).spec_start_time(),
            final(self).spec_duration_ms() == old(self).spec_duration_ms(),
            final(self).spec_reporter() == old(self).spec_reporter(),
            old(self).report_due(elapsed_ns) ==> {
                &&& r == Some(
                    Report {
                        elapsed_ns,
                        cnt: old(self).spec_cnt(),
                        new_cnt: (old(self).spec_cnt() - old(self).spec_last_cnt()) as u64,
                        interval_ns: (elapsed_ns - old(self).spec_last_report_at_ns()) as u128,
                    },
                )
                &&& final(self).spec_last_report_at_ns() == elapsed_ns
                &&& final(self).spec_last_cnt() == old(self).spec_cnt()
            },
            !old(self).report_due(elapsed_ns) ==> {
                &&& r is None
                &&& final(self).spec_last_report_at_ns() == old(self).spec_last_report_at_ns()
                &&& final(self).spec_last_cnt() == old(self).spec_last_cnt()
            },
    {
        proof {
            assert(elapsed_ns / NANOS_PER_MILLI >= self.last_report_at_ns / NANOS_PER_MILLI) by (
            nonlinear_arith)
                requires
                    elapsed_ns >= self.last_report_at_ns,
            ;
        }
        if elapsed_ns / NANOS_PER_MILLI - self.last_report_at_ns / NANOS_PER_MILLI
            > REPORT_INTERVAL_MS {
            let report = Report {
                elapsed_ns,
                cnt: self.cnt,
                new_cnt: self.cnt - self.last_cnt,
                interval_ns: elapsed_ns - self.last_report_at_ns,
            };
            self.last_report_at_ns = elapsed_ns;
            self.last_cnt = self.cnt;
            Some(report)
        } else {
            None
        }
    }

    /// Reads the clock and returns the report due now, if any. A clock
    /// reading earlier than the previous report, which can follow a `begin`,
    /// gives no report.
    pub fn report(&mut self) -> (r: Option<Report>)
        requires
            old(self).wf(),
        ensures
            final(self).wf(),
            final(self).spec_cnt() == old(self).spec_cnt(),
            final(self).spec_start_time() == old(self).spec_start_time(),
            final(self).spec_duration_ms() == old(self).spec_duration_ms(),
            final(self).spec_reporter() == old(self).spec_reporter(),
            r is None ==> final(self).spec_last_report_at_ns() == old(self).spec_last_report_at_ns()
                && final(self).spec_last_cnt() == old(self).spec_last_cnt(),
            r matches Some(rep) ==> {
                &&& old(self).report_due(rep.elapsed_ns)
                &&& rep.elapsed_ns >= old(self).spec_last_report_at_ns()
                &&& rep.cnt == old(self).spec_cnt()
                &&& rep.new_cnt == old(self).spec_cnt() - old(self).spec_last_cnt()
                &&& rep.interval_ns == rep.elapsed_ns - old(self).spec_last_report_at_ns()
                &&& final(self).spec_last_report_at_ns() == rep.elapsed_ns
                &&& final(self).spec_last_cnt() == old(self).spec_cnt()
            },
    {
        let elapsed_ns = Instant::now().duration_since(self.start_time).as_nanos();
        if elapsed_ns < self.last_report_at_ns {
            return None;
        }
        self.report_at(elapsed_ns)
    }

    /// Whether the run, started `elapsed_ns` ago, has lasted longer than its
    /// duration.
    pub fn finished_after(&self, elapsed_ns: u128) -> (r: bool)
        ensures
            r == self.finished_at(elapsed_ns),
    {
        elapsed_ns / NANOS_PER_MILLI > self.duration_ms as u128
    }

    /// Reads the clock and tells whether the run has lasted longer than its
    /// duration: `finished_after` applied to the time since the start. The
    /// reading comes from the clock, so nothing is promised of the result.
    pub fn should_finish(&self) -> (r: bool) {
        let elapsed_ns = Instant::now().duration_since(self.start_time).as_nanos();
        self.finished_after(elapsed_ns)
    }
}

} // verus!
