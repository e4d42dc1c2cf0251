//! Background capture of port rates. A capture takes a baseline, then reads
//! again and again until it is stopped, fails for good or is full.
//!
//! The program around it reads the counters, the clocks and sleeps; what it
//! reads is handed in here, and what to do next comes back. Times are in
//! nanoseconds of one monotonic clock, timestamps in nanoseconds of Unix time.

use vstd::prelude::*;

use crate::lists;
use crate::metrics;
use crate::stat::{PortStat, PortStatView};
use crate::text;
use crate::trace;
use crate::trace::{PortMetrics, PortMetricsView};

verus! {

pub const MAX_SAMPLES: usize = 100_000;

pub const MAX_CONSECUTIVE_READ_FAILURES: u32 = 10;

/// The longest sleep before the stop flag is looked at again.
pub const STOP_POLL_NS: u64 = 20_000_000;

/// The rates of every port since the reading before, stamped with the time of
/// that reading.
#[derive(Debug)]
pub struct CaptureSample {
    pub ts_unix_ns: u64,
    pub ports: Vec<PortMetrics>,
}

/// What a sample holds.
#[verifier::ext_equal]
pub struct CaptureSampleView {
    pub ts_unix_ns: u64,
    pub ports: Seq<PortMetricsView>,
}

impl View for CaptureSample {
    type V = CaptureSampleView;

    open spec fn view(&self) -> CaptureSampleView {
        CaptureSampleView { ts_unix_ns: self.ts_unix_ns, ports: lists::views(self.ports@) }
    }
}

impl Clone for CaptureSample {
    fn clone(&self) -> (r: Self)
        ensures
            r@ == self@,
    {
        let ports = self.ports.clone();
        assert(lists::views(ports@) =~= lists::views(self.ports@));
        CaptureSample { ts_unix_ns: self.ts_unix_ns, ports }
    }
}

/// What a capture gathered, and why it ended on its own where it did.
#[derive(Debug)]
pub struct CaptureResult {
    pub samples: Vec<CaptureSample>,
    pub error: Option<String>,
}

/// What a result holds.
#[verifier::ext_equal]
pub struct CaptureResultView {
    pub samples: Seq<CaptureSampleView>,
    pub error: Option<Seq<char>>,
}

impl View for CaptureResult {
    type V = CaptureResultView;

    open spec fn view(&self) -> CaptureResultView {
        CaptureResultView {
            samples: lists::views(self.samples@),
            error: lists::opt_text(self.error),
        }
    }
}

impl Default for CaptureResult {
    fn default() -> (r: Self)
        ensures
            r@ == (CaptureResultView { samples: seq![], error: None }),
    {
        let r = CaptureResult { samples: Vec::new(), error: None };
        assert(lists::views(r.samples@) =~= seq![]);
        r
    }
}

/// The result of a capture whose thread did not return one.
pub fn panicked() -> (r: CaptureResult)
    ensures
        r@ == (CaptureResultView { samples: seq![], error: Some("capture thread panicked"@) }),
{
    let r = CaptureResult {
        samples: Vec::new(),
        error: Some("capture thread panicked".to_owned()),
    };
    assert(lists::views(r.samples@) =~= seq![]);
    r
}

/// Whether a name is on a list.
pub open spec fn listed(names: Seq<Seq<char>>, name: Seq<char>) -> bool {
    exists|i: int| 0 <= i < names.len() && #[trigger] names[i] == name
}

/// The ports of the named devices, in order; all ports without a filter.
pub open spec fn kept_devices(stats: Seq<PortStatView>, devices: Option<Seq<Seq<char>>>) -> Seq<
    PortStatView,
>
    decreases stats.len(),
{
    match devices {
        None => stats,
        Some(names) => if stats.len() == 0 {
            seq![]
        } else {
            let before = kept_devices(stats.drop_last(), devices);
            if listed(names, stats.last().dev_name) {
                before.push(stats.last())
            } else {
                before
            }
        },
    }
}

/// The contents of an optional list of names.
pub open spec fn filter_view(devices: Option<Vec<String>>) -> Option<Seq<Seq<char>>> {
    match devices {
        Some(v) => Some(text::strings(v@)),
        None => None,
    }
}

fn is_listed(names: &[String], name: &str) -> (r: bool)
    ensures
        r == listed(text::strings(names@), name@),
{
    let ghost all = text::strings(names@);
    let mut i: usize = 0;
    while i < names.len()
        invariant
            i <= names.len(),
            all == text::strings(names@),
            forall|k: int| 0 <= k < i ==> #[trigger] all[k] != name@,
        decreases names.len() - i,
    {
        assert(all[i as int] == names@[i as int]@);
        if text::same(names[i].as_str(), name) {
            return true;
        }
        i += 1;
    }
    false
}

/// Keeps the ports of the named devices.
pub fn keep_devices(stats: Vec<PortStat>, devices: &Option<Vec<String>>) -> (r: Vec<PortStat>)
    ensures
        lists::views(r@) == kept_devices(lists::views(stats@), filter_view(*devices)),
{
    let names = match devices {
        Some(names) => names,
        None => {
            return stats;
        },
    };
    let ghost all = lists::views(stats@);
    let ghost filter = filter_view(*devices);
    let mut out: Vec<PortStat> = Vec::new();
    assert(lists::views(out@) =~= kept_devices(all.take(0), filter));
    for stat in it: stats
        invariant
            lists::views(it.seq()) == all,
            filter == Some(text::strings(names@)),
            lists::views(out@) == kept_devices(all.take(it.index() as int), filter),
    {
        proof {
            text::lemma_take_step(all, it.index() as int);
            assert(all[it.index() as int] == stat@);
        }
        if is_listed(names.as_slice(), stat.dev_name.as_str()) {
            proof {
                lists::lemma_views_push(out@, stat);
            }
            out.push(stat);
        }
    }
    assert(all.take(all.len() as int) =~= all);
    out
}

/// When to read next. A deadline that has passed is not made up for: slow
/// reads must not trigger a burst.
pub open spec fn due_after(due: u64, interval_ns: u64, now: u64) -> u64 {
    let next = if due + interval_ns > u64::MAX {
        u64::MAX
    } else {
        (due + interval_ns) as u64
    };
    if next > now {
        next
    } else {
        now
    }
}

/// Moves the deadline on by one interval, and at least to the present.
pub fn next_due(due: u64, interval_ns: u64, now: u64) -> (r: u64)
    ensures
        r == due_after(due, interval_ns, now),
{
    let next: u64 = due.saturating_add(interval_ns);
    if next > now {
        next
    } else {
        now
    }
}

/// A capture between two readings.
#[derive(Debug)]
pub struct SamplingLoop {
    prev: Vec<PortStat>,
    prev_at: u64,
    prev_unix_ns: u64,
    interval_ns: u64,
    due: u64,
    devices: Option<Vec<String>>,
    samples: Vec<CaptureSample>,
    consecutive_failures: u32,
}

/// What a capture holds.
#[verifier::ext_equal]
pub struct LoopView {
    pub prev: Seq<PortStatView>,
    pub prev_at: u64,
    pub prev_unix_ns: u64,
    pub interval_ns: u64,
    pub due: u64,
    pub devices: Option<Seq<Seq<char>>>,
    pub samples: Seq<CaptureSampleView>,
    pub consecutive_failures: u32,
}

impl View for SamplingLoop {
    type V = LoopView;

    closed spec fn view(&self) -> LoopView {
        LoopView {
            prev: lists::views(self.prev@),
            prev_at: self.prev_at,
            prev_unix_ns: self.prev_unix_ns,
            interval_ns: self.interval_ns,
            due: self.due,
            devices: filter_view(self.devices),
            samples: lists::views(self.samples@),
            consecutive_failures: self.consecutive_failures,
        }
    }
}

/// Why a capture cannot start.
#[derive(Clone, Copy, Debug, PartialEq, Eq, Structural)]
pub enum StartError {
    NoMatchingPort,
}

impl StartError {
    /// The message shown for a capture that cannot start.
    pub fn message(&self) -> (r: String)
        ensures
            r@ == "no RDMA port matches the device filter"@,
    {
        "no RDMA port matches the device filter".to_owned()
    }
}

/// What the capture thread does next.
#[derive(Clone, Copy, Debug, PartialEq, Eq, Structural)]
pub enum CaptureStep {
    Stop,
    Read,
    Sleep { ns: u64 },
}

/// What a capture does at a moment: it stops when it is asked to, reads once its
/// deadline has come, and otherwise sleeps towards it in pieces.
pub open spec fn step_at(due: u64, stop: bool, now: u64) -> CaptureStep {
    if stop {
        CaptureStep::Stop
    } else if now >= due {
        CaptureStep::Read
    } else if due - now < STOP_POLL_NS {
        CaptureStep::Sleep { ns: (due - now) as u64 }
    } else {
        CaptureStep::Sleep { ns: STOP_POLL_NS }
    }
}

/// A capture with one more sample: the rates since the reading before, which
/// the new reading replaces.
pub open spec fn sampled(s: LoopView, stats: Seq<PortStatView>, now: u64, unix_ns: u64) -> LoopView {
    let curr = kept_devices(stats, s.devices);
    LoopView {
        prev: curr,
        prev_at: now,
        prev_unix_ns: unix_ns,
        samples: s.samples.push(
            CaptureSampleView {
                ts_unix_ns: s.prev_unix_ns,
                ports: metrics::between(s.prev, curr, trace::span(now, s.prev_at)),
            },
        ),
        consecutive_failures: 0,
        ..s
    }
}

/// A capture after one more failed reading.
pub open spec fn failed(s: LoopView) -> LoopView {
    LoopView { consecutive_failures: (s.consecutive_failures + 1) as u32, ..s }
}

/// Why a capture ends after a reading; none when it goes on.
pub open spec fn end_reason(after: LoopView, failure: Option<Seq<char>>) -> Option<Seq<char>> {
    if failure is Some && after.consecutive_failures >= MAX_CONSECUTIVE_READ_FAILURES {
        failure
    } else if after.samples.len() >= MAX_SAMPLES {
        Some("sample cap reached"@)
    } else {
        None
    }
}

/// A capture that has not ended: fewer failures in a row than end it.
pub open spec fn running(s: LoopView) -> bool {
    s.consecutive_failures < MAX_CONSECUTIVE_READ_FAILURES
}

impl SamplingLoop {
    /// Takes the first reading as the baseline. Without a port that passes the
    /// filter there is nothing to capture.
    pub fn from_baseline(
        stats: Vec<PortStat>,
        interval_ns: u64,
        devices: Option<Vec<String>>,
        now: u64,
        unix_ns: u64,
    ) -> (r: Result<Self, StartError>)
        ensures
            match r {
                Ok(s) => {
                    let prev = kept_devices(lists::views(stats@), filter_view(devices));
                    &&& prev.len() > 0
                    &&& s@ == (LoopView {
                        prev,
                        prev_at: now,
                        prev_unix_ns: unix_ns,
                        interval_ns,
                        due: due_after(now, interval_ns, now),
                        devices: filter_view(devices),
                        samples: seq![],
                        consecutive_failures: 0,
                    })
                    &&& running(s@)
                },
                Err(e) => e == StartError::NoMatchingPort && kept_devices(
                    lists::views(stats@),
                    filter_view(devices),
                ).len() == 0,
            },
    {
        let prev = keep_devices(stats, &devices);
        if prev.len() == 0 {
            assert(lists::views(prev@).len() == 0);
            return Err(StartError::NoMatchingPort);
        }
        assert(lists::views(prev@).len() == prev@.len());
        let s = SamplingLoop {
            prev,
            prev_at: now,
            prev_unix_ns: unix_ns,
            interval_ns,
            due: next_due(now, interval_ns, now),
            devices,
            samples: Vec::new(),
            consecutive_failures: 0,
        };
        assert(lists::views(s.samples@) =~= seq![]);
        Ok(s)
    }

    /// What to do at a moment: stop when asked to, read when the deadline has
    /// come, and sleep towards it otherwise, in pieces.
    pub fn step(&self, stop: bool, now: u64) -> (r: CaptureStep)
        ensures
            r == (if stop {
                CaptureStep::Stop
            } else if now >= self@.due {
                CaptureStep::Read
            } else if self@.due - now < STOP_POLL_NS {
                CaptureStep::Sleep { ns: (self@.due - now) as u64 }
            } else {
                CaptureStep::Sleep { ns: STOP_POLL_NS }
            }),
            r == step_at(self@.due, stop, now),
    {
        if stop {
            return CaptureStep::Stop;
        }
        let remaining: u64 = self.due.saturating_sub(now);
        if remaining == 0 {
            CaptureStep::Read
        } else if remaining < STOP_POLL_NS {
            CaptureStep::Sleep { ns: remaining }
        } else {
            CaptureStep::Sleep { ns: STOP_POLL_NS }
        }
    }

    /// Takes in one reading, or the message of one that failed. A message that
    /// comes back ends the capture.
    pub fn read_once(&mut self, read: Result<Vec<PortStat>, String>, now: u64, unix_ns: u64) -> (r:
        Option<String>)
        requires
            running(old(self)@),
        ensures
            match read {
                Ok(stats) => {
                    let next = sampled(old(self)@, lists::views(stats@), now, unix_ns);
                    &&& lists::opt_text(r) == end_reason(next, None)
                    &&& final(self)@ == (if r is Some {
                        next
                    } else {
                        LoopView {
                            due: due_after(old(self)@.due, old(self)@.interval_ns, now),
                            ..next
                        }
                    })
                },
                Err(message) => {
                    let next = failed(old(self)@);
                    &&& lists::opt_text(r) == end_reason(next, Some(message@))
                    &&& final(self)@ == (if r is Some {
                        next
                    } else {
                        LoopView {
                            due: due_after(old(self)@.due, old(self)@.interval_ns, now),
                            ..next
                        }
                    })
                },
            },
            r is None ==> running(final(self)@),
    {
        match read {
            Ok(stats) => {
                self.consecutive_failures = 0;
                self.record_sample(stats, now, unix_ns);
            },
            Err(message) => {
                self.consecutive_failures = self.consecutive_failures + 1;
                if self.consecutive_failures >= MAX_CONSECUTIVE_READ_FAILURES {
                    return Some(message);
                }
            },
        }
        if self.samples.len() >= MAX_SAMPLES {
            return Some("sample cap reached".to_owned());
        }
        self.due = next_due(self.due, self.interval_ns, now);
        None
    }

    fn record_sample(&mut self, stats: Vec<PortStat>, now: u64, unix_ns: u64)
        requires
            old(self)@.consecutive_failures == 0,
        ensures
            final(self)@ == sampled(old(self)@, lists::views(stats@), now, unix_ns),
    {
        let curr = keep_devices(stats, &self.devices);
        let elapsed_ns: u64 = now.saturating_sub(self.prev_at);
        let sample = CaptureSample {
            ts_unix_ns: self.prev_unix_ns,
            ports: metrics::rates_between(self.prev.as_slice(), curr.as_slice(), elapsed_ns),
        };
        proof {
            lists::lemma_views_push(self.samples@, sample);
        }
        self.samples.push(sample);
        self.prev = curr;
        self.prev_at = now;
        self.prev_unix_ns = unix_ns;
    }

    /// Ends the capture with what it gathered.
    pub fn finish(self, error: Option<String>) -> (r: CaptureResult)
        ensures
            r@ == (CaptureResultView { samples: self@.samples, error: lists::opt_text(error) }),
    {
        CaptureResult { samples: self.samples, error }
    }
}

/// A failed reading leaves the samples and the baseline as they were, so the
/// next sample covers the gap.
pub proof fn law_failure_keeps_samples(s: LoopView)
    ensures
        failed(s).samples == s.samples,
        failed(s).prev == s.prev,
        failed(s).prev_at == s.prev_at,
        failed(s).prev_unix_ns == s.prev_unix_ns,
{
}

/// A good reading adds one sample, stamped with the time of the reading before
/// it, and ends a run of failures.
pub proof fn law_reading_adds_one_sample(
    s: LoopView,
    stats: Seq<PortStatView>,
    now: u64,
    unix_ns: u64,
)
    ensures
        sampled(s, stats, now, unix_ns).samples.len() == s.samples.len() + 1,
        sampled(s, stats, now, unix_ns).samples.last().ts_unix_ns == s.prev_unix_ns,
        sampled(s, stats, now, unix_ns).samples.drop_last() == s.samples,
        sampled(s, stats, now, unix_ns).consecutive_failures == 0,
{
    assert(sampled(s, stats, now, unix_ns).samples.drop_last() =~= s.samples);
}

/// A capture that goes on ends at the reading that fills it or at the failure
/// that is one too many in a row, and then gives that failure as its reason. So
/// it never holds more samples than the cap.
pub proof fn law_capture_is_bounded(
    s: LoopView,
    stats: Seq<PortStatView>,
    now: u64,
    unix_ns: u64,
    message: Seq<char>,
)
    requires
        running(s),
        s.samples.len() < MAX_SAMPLES,
    ensures
        sampled(s, stats, now, unix_ns).samples.len() <= MAX_SAMPLES,
        end_reason(sampled(s, stats, now, unix_ns), None) is Some <==> s.samples.len() + 1
            == MAX_SAMPLES,
        end_reason(failed(s), Some(message)) == (if s.consecutive_failures + 1
            == MAX_CONSECUTIVE_READ_FAILURES {
            Some(message)
        } else {
            None
        }),
{
}

/// Whether the stamps of some samples never go back, and none lies after a
/// moment.
pub open spec fn stamps_ordered(samples: Seq<CaptureSampleView>, until: u64) -> bool {
    &&& forall|i: int, j: int|
        #![trigger samples[i], samples[j]]
        0 <= i < j < samples.len() ==> samples[i].ts_unix_ns <= samples[j].ts_unix_ns
    &&& forall|i: int| 0 <= i < samples.len() ==> (#[trigger] samples[i]).ts_unix_ns <= until
}

/// While the clock does not go back, neither do the stamps of the samples.
pub proof fn law_stamps_stay_ordered(
    s: LoopView,
    stats: Seq<PortStatView>,
    now: u64,
    unix_ns: u64,
)
    requires
        stamps_ordered(s.samples, s.prev_unix_ns),
        s.prev_unix_ns <= unix_ns,
    ensures
        stamps_ordered(
            sampled(s, stats, now, unix_ns).samples,
            sampled(s, stats, now, unix_ns).prev_unix_ns,
        ),
{
}

/// Every port of a filtered reading belongs to a named device.
pub proof fn law_filter_keeps_only_named(stats: Seq<PortStatView>, names: Seq<Seq<char>>)
    ensures
        forall|i: int|
            0 <= i < kept_devices(stats, Some(names)).len() ==> listed(
                names,
                (#[trigger] kept_devices(stats, Some(names))[i]).dev_name,
            ),
    decreases stats.len(),
{
    if stats.len() > 0 {
        law_filter_keeps_only_named(stats.drop_last(), names);
        let before = kept_devices(stats.drop_last(), Some(names));
        let after = kept_devices(stats, Some(names));
        assert forall|i: int| 0 <= i < after.len() implies listed(
            names,
            (#[trigger] after[i]).dev_name,
        ) by {
            if i < before.len() {
                assert(after[i] == before[i]);
            }
        }
    }
}

/// Every rate of a new sample is over the time from the reading it is compared
/// with to the new one, which then takes its place as baseline.
pub proof fn law_sample_spans_its_readings(
    s: LoopView,
    stats: Seq<PortStatView>,
    now: u64,
    unix_ns: u64,
)
    ensures
        forall|i: int|
            0 <= i < sampled(s, stats, now, unix_ns).samples.last().ports.len()
                ==> metrics::all_over(
                #[trigger] sampled(s, stats, now, unix_ns).samples.last().ports[i],
                if now >= s.prev_at {
                    (now - s.prev_at) as u64
                } else {
                    0
                },
            ),
        sampled(s, stats, now, unix_ns).samples.last().ports == metrics::between(
            s.prev,
            kept_devices(stats, s.devices),
            if now >= s.prev_at {
                (now - s.prev_at) as u64
            } else {
                0
            },
        ),
        sampled(s, stats, now, unix_ns).prev == kept_devices(stats, s.devices),
        sampled(s, stats, now, unix_ns).prev_at == now,
        sampled(s, stats, now, unix_ns).prev_unix_ns == unix_ns,
        sampled(s, stats, now, unix_ns).interval_ns == s.interval_ns,
        sampled(s, stats, now, unix_ns).due == s.due,
        sampled(s, stats, now, unix_ns).devices == s.devices,
{
    let elapsed_ns: u64 = if now >= s.prev_at {
        (now - s.prev_at) as u64
    } else {
        0
    };
    metrics::law_rates_are_over_the_span(s.prev, kept_devices(stats, s.devices), elapsed_ns);
    assert(sampled(s, stats, now, unix_ns).samples.last().ports == metrics::between(
        s.prev,
        kept_devices(stats, s.devices),
        elapsed_ns,
    ));
}

/// A reading that succeeded: the ports, the instant and the time of day.
pub struct Reading {
    pub stats: Seq<PortStatView>,
    pub now: u64,
    pub unix_ns: u64,
}

/// A capture after some good readings in a row.
pub open spec fn after_readings(s: LoopView, readings: Seq<Reading>) -> LoopView
    decreases readings.len(),
{
    if readings.len() == 0 {
        s
    } else {
        let r = readings.last();
        sampled(after_readings(s, readings.drop_last()), r.stats, r.now, r.unix_ns)
    }
}

/// The time that a sample covers, as its first port shows it.
pub open spec fn covered_ns(sample: CaptureSampleView) -> int {
    match sample.ports[0].tx_bytes {
        metrics::MeanView::One(r) => r.elapsed_ns as int,
        metrics::MeanView::Of(_) => 0,
    }
}

/// The time that some samples cover together.
pub open spec fn covered_by(samples: Seq<CaptureSampleView>) -> int
    decreases samples.len(),
{
    if samples.len() == 0 {
        0
    } else {
        covered_by(samples.drop_last()) + covered_ns(samples.last())
    }
}

/// Whether instants never go back, from a first one on.
pub open spec fn instants_ordered(from: u64, readings: Seq<Reading>) -> bool {
    &&& forall|i: int| 0 <= i < readings.len() ==> from <= (#[trigger] readings[i]).now
    &&& forall|i: int, j: int|
        #![trigger readings[i], readings[j]]
        0 <= i < j < readings.len() ==> readings[i].now <= readings[j].now
}

/// Over good readings in a row the samples cover the time from the baseline to
/// the last of them, with no gap and nothing counted twice.
pub proof fn law_samples_cover_the_capture(s: LoopView, readings: Seq<Reading>)
    requires
        instants_ordered(s.prev_at, readings),
        forall|i: int|
            s.samples.len() <= i < s.samples.len() + readings.len() ==> (
            #[trigger] after_readings(s, readings).samples[i]).ports.len() > 0,
    ensures
        after_readings(s, readings).samples.len() == s.samples.len() + readings.len(),
        after_readings(s, readings).samples.take(s.samples.len() as int) == s.samples,
        after_readings(s, readings).prev_at == (if readings.len() == 0 {
            s.prev_at
        } else {
            readings.last().now
        }),
        covered_by(after_readings(s, readings).samples.skip(s.samples.len() as int))
            == after_readings(s, readings).prev_at - s.prev_at,
    decreases readings.len(),
{
    let n = s.samples.len() as int;
    let after = after_readings(s, readings);
    if readings.len() == 0 {
        assert(after.samples.skip(n) =~= seq![]);
        assert(after.samples.take(n) =~= s.samples);
    } else {
        let r = readings.last();
        let front = readings.drop_last();
        let before = after_readings(s, front);
        lemma_readings_add_samples(s, front);
        assert forall|i: int| n <= i < n + front.len() implies (
        #[trigger] before.samples[i]).ports.len() > 0 by {
            assert(after.samples[i] == before.samples[i]);
        }
        assert(instants_ordered(s.prev_at, front)) by {
            assert forall|i: int| 0 <= i < front.len() implies s.prev_at <= (
            #[trigger] front[i]).now by {
                assert(front[i] == readings[i]);
            }
            assert forall|i: int, j: int|
                #![trigger front[i], front[j]]
                0 <= i < j < front.len() implies front[i].now <= front[j].now by {
                assert(front[i] == readings[i] && front[j] == readings[j]);
            }
        }
        law_samples_cover_the_capture(s, front);
        law_sample_spans_its_readings(before, r.stats, r.now, r.unix_ns);
        assert(r == readings[readings.len() - 1]);
        assert(before.prev_at <= r.now) by {
            if front.len() > 0 {
                assert(front.last() == readings[readings.len() - 2]);
            }
        }
        let last = after.samples.last();
        assert(after.samples[n + front.len()] == last);
        assert(metrics::all_over(last.ports[0], (r.now - before.prev_at) as u64));
        assert(after.samples.skip(n).drop_last() =~= before.samples.skip(n));
        assert(after.samples.skip(n).last() == last);
        assert(after.samples.take(n) =~= before.samples.take(n));
    }
}

proof fn lemma_readings_add_samples(s: LoopView, readings: Seq<Reading>)
    ensures
        after_readings(s, readings).samples.len() == s.samples.len() + readings.len(),
    decreases readings.len(),
{
    if readings.len() > 0 {
        lemma_readings_add_samples(s, readings.drop_last());
    }
}

/// The next reading comes one interval after the last was due, at once where
/// that has passed, and never before now.
pub proof fn law_readings_keep_their_pace(due: u64, interval_ns: u64, now: u64)
    ensures
        due_after(due, interval_ns, now) >= now,
        now < due + interval_ns <= u64::MAX ==> due_after(due, interval_ns, now) == due + interval_ns,
        due + interval_ns <= now ==> due_after(due, interval_ns, now) == now,
        due + interval_ns > u64::MAX ==> due_after(due, interval_ns, now) == u64::MAX,
{
}

/// A failed reading counts as one more failure in a row and changes nothing
/// else.
pub proof fn law_failure_only_counts(s: LoopView)
    requires
        running(s),
    ensures
        failed(s).consecutive_failures == s.consecutive_failures + 1,
        failed(s).interval_ns == s.interval_ns,
        failed(s).due == s.due,
        failed(s).devices == s.devices,
{
}

/// A filter keeps the ports of the named devices in order and drops the others;
/// without one every port is kept.
pub proof fn law_filter_keeps_all_named(
    a: Seq<PortStatView>,
    b: Seq<PortStatView>,
    names: Seq<Seq<char>>,
    s: PortStatView,
)
    ensures
        kept_devices(a, None) == a,
        kept_devices(a + b, Some(names)) == kept_devices(a, Some(names)) + kept_devices(
            b,
            Some(names),
        ),
        names.contains(s.dev_name) ==> kept_devices(seq![s], Some(names)) == seq![s],
        !names.contains(s.dev_name) ==> kept_devices(seq![s], Some(names)).len() == 0,
    decreases b.len(),
{
    assert(seq![s].drop_last() =~= seq![]);
    assert(kept_devices(seq![], Some(names)) =~= seq![]);
    assert(names.contains(s.dev_name) <==> listed(names, s.dev_name));
    if listed(names, s.dev_name) {
        assert(kept_devices(seq![s], Some(names)) =~= seq![s]);
    }
    if b.len() == 0 {
        assert(a + b =~= a);
        assert(kept_devices(b, Some(names)) =~= seq![]);
    } else {
        law_filter_keeps_all_named(a, b.drop_last(), names, s);
        assert((a + b).drop_last() =~= a + b.drop_last());
        assert((a + b).last() == b.last());
    }
    assert(kept_devices(a + b, Some(names)) =~= kept_devices(a, Some(names)) + kept_devices(
        b,
        Some(names),
    ));
}

/// What a value holds is what its fields hold, each under its own name.
pub proof fn law_views_hold_every_field(
    capture_sample: CaptureSample,
    capture_result: CaptureResult,
)
    ensures
        capture_sample@.ts_unix_ns == capture_sample.ts_unix_ns,
        capture_sample@.ports == lists::views(capture_sample.ports@),
        capture_result@.samples == lists::views(capture_result.samples@),
        capture_result@.error == lists::opt_text(capture_result.error),
{
}

/// A capture holds at most a hundred thousand samples, ends at the tenth failure
/// in a row, and looks for a stop every twenty milliseconds.
pub proof fn law_capture_limits(s: LoopView, message: Seq<char>)
    ensures
        running(s) <==> s.consecutive_failures < 10,
        s.consecutive_failures >= 10 ==> end_reason(s, Some(message)) == Some(message),
        s.samples.len() >= 100_000 ==> end_reason(s, None) == Some("sample cap reached"@),
        s.samples.len() < 100_000 ==> end_reason(s, None) is None,
        STOP_POLL_NS == 20_000_000,
{
}

/// A capture stops when it is asked to, reads once its deadline has come, and
/// otherwise sleeps towards it in pieces of twenty milliseconds at most.
pub proof fn law_capture_sleeps_towards_its_deadline(due: u64, stop: bool, now: u64)
    ensures
        stop ==> step_at(due, stop, now) == CaptureStep::Stop,
        !stop && now >= due ==> step_at(due, stop, now) == CaptureStep::Read,
        !stop && now < due ==> match step_at(due, stop, now) {
            CaptureStep::Sleep { ns } => {
                &&& 0 < ns <= 20_000_000
                &&& now + ns <= due
                &&& due - now <= 20_000_000 ==> now + ns == due
                &&& due - now > 20_000_000 ==> ns == 20_000_000
            },
            _ => false,
        },
{
}

} // verus!
