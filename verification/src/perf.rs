//! Lightweight per-frame profiling of the hooks.
//!
//! Enabled by `logging.profile = true` in `grimmod.toml`. Each hook has a
//! counter of its total time, its calls and its longest call; every
//! `REPORT_INTERVAL` frames a report is made of the frame times and of each
//! counter that was called, and the counters start again from zero. The
//! application holds the counters and logs the reports.

use vstd::prelude::*;
use crate::config::Config;

verus! {

/// How often a profiling report is made, in frames.
pub const REPORT_INTERVAL: u64 = 120;

#[verifier::external_type_specification]
#[verifier::external_body]
pub struct ExInstant(std::time::Instant);

/// `Instant::now`: the current time. Nothing is claimed of it.
#[verifier::external_body]
fn instant_now() -> std::time::Instant {
    std::time::Instant::now()
}

/// `Instant::elapsed`: the time since `start`. Nothing is claimed of it.
#[verifier::external_body]
fn instant_elapsed(start: &std::time::Instant) -> core::time::Duration {
    start.elapsed()
}

/// `Duration::as_nanos`: the whole nanoseconds of `d`. Nothing is claimed of it.
#[verifier::external_body]
fn duration_as_nanos(d: &core::time::Duration) -> u128 {
    d.as_nanos()
}

/// The state of one counter.
pub struct CounterModel {
    pub name: Seq<char>,
    pub total_ns: u64,
    pub count: u64,
    pub max_ns: u64,
}

/// A per-hook accumulator: total time, number of calls and longest call
/// over a reporting interval.
pub struct Counter {
    pub name: String,
    total_ns: u64,
    count: u64,
    max_ns: u64,
}

impl View for Counter {
    type V = CounterModel;

    closed spec fn view(&self) -> CounterModel {
        CounterModel { name: self.name@, total_ns: self.total_ns, count: self.count, max_ns: self.max_ns }
    }
}

/// The counter after a call that took `elapsed_ns`: the total and the count
/// grow (modulo 2^64, as the atomic additions do) and the maximum keeps the
/// longest call.
pub open spec fn recorded(c: CounterModel, elapsed_ns: u64) -> CounterModel {
    CounterModel {
        total_ns: ((c.total_ns + elapsed_ns) % 0x1_0000_0000_0000_0000) as u64,
        count: ((c.count + 1) % 0x1_0000_0000_0000_0000) as u64,
        max_ns: if elapsed_ns > c.max_ns { elapsed_ns } else { c.max_ns },
        ..c
    }
}

/// The counter emptied.
pub open spec fn emptied(c: CounterModel) -> CounterModel {
    CounterModel { total_ns: 0, count: 0, max_ns: 0, ..c }
}

impl Counter {
    /// A counter with nothing recorded.
    pub fn new(name: &str) -> (c: Counter)
        ensures
            c@ == (CounterModel { name: name@, total_ns: 0, count: 0, max_ns: 0 }),
    {
        Counter { name: name.to_owned(), total_ns: 0, count: 0, max_ns: 0 }
    }

    /// Record one call that took `elapsed_ns`.
    pub fn record(&mut self, elapsed_ns: u64)
        ensures
            final(self)@ == recorded(old(self)@, elapsed_ns),
    {
        self.total_ns = self.total_ns.wrapping_add(elapsed_ns);
        self.count = self.count.wrapping_add(1);
        if elapsed_ns > self.max_ns {
            self.max_ns = elapsed_ns;
        }
    }

    /// Give `(total_ns, count, max_ns)` and start again from zero.
    pub fn drain(&mut self) -> (r: (u64, u64, u64))
        ensures
            r == (old(self)@.total_ns, old(self)@.count, old(self)@.max_ns),
            final(self)@ == emptied(old(self)@),
    {
        let r = (self.total_ns, self.count, self.max_ns);
        self.total_ns = 0;
        self.count = 0;
        self.max_ns = 0;
        r
    }
}

/// The counter after calls that took `es`, in order.
pub open spec fn recorded_all(c: CounterModel, es: Seq<u64>) -> CounterModel
    decreases es.len(),
{
    if es.len() == 0 {
        c
    } else {
        recorded(recorded_all(c, es.drop_last()), es.last())
    }
}

/// The sum of `es`.
pub open spec fn sum_of(es: Seq<u64>) -> int
    decreases es.len(),
{
    if es.len() == 0 {
        0
    } else {
        sum_of(es.drop_last()) + es.last()
    }
}

/// The largest of `es`, 0 for none.
pub open spec fn max_of(es: Seq<u64>) -> u64
    decreases es.len(),
{
    if es.len() == 0 {
        0
    } else {
        let m = max_of(es.drop_last());
        if es.last() > m { es.last() } else { m }
    }
}

/// A counter that starts empty and records calls that took `es` holds, over
/// that interval, the total time (modulo 2^64), the number of calls (modulo
/// 2^64) and the longest call; its name is unchanged.
pub proof fn law_counter_accumulates(c: CounterModel, es: Seq<u64>)
    ensures
        recorded_all(emptied(c), es).name == c.name,
        recorded_all(emptied(c), es).total_ns == sum_of(es) % 0x1_0000_0000_0000_0000,
        recorded_all(emptied(c), es).count == es.len() % 0x1_0000_0000_0000_0000,
        recorded_all(emptied(c), es).max_ns == max_of(es),
    decreases es.len(),
{
    if es.len() > 0 {
        let p = es.drop_last();
        law_counter_accumulates(c, p);
        let m: int = 0x1_0000_0000_0000_0000;
        vstd::arithmetic::div_mod::lemma_add_mod_noop_right(es.last() as int, sum_of(p), m);
        vstd::arithmetic::div_mod::lemma_add_mod_noop_right(1, p.len() as int, m);
    }
}

/// The state of the profiler: whether it is on, and the frame times
/// accumulated since the last report.
pub struct PerfModel {
    pub enabled: bool,
    pub frame_count: u64,
    pub frame_total_ns: u64,
    pub frame_max_ns: u64,
}

/// The profiler's switch and frame accumulators.
pub struct Perf {
    enabled: bool,
    frame_count: u64,
    frame_total_ns: u64,
    frame_max_ns: u64,
}

impl View for Perf {
    type V = PerfModel;

    closed spec fn view(&self) -> PerfModel {
        PerfModel {
            enabled: self.enabled,
            frame_count: self.frame_count,
            frame_total_ns: self.frame_total_ns,
            frame_max_ns: self.frame_max_ns,
        }
    }
}

impl Perf {
    /// A profiler that is off, with nothing accumulated.
    pub fn new() -> (p: Perf)
        ensures
            p@ == (PerfModel { enabled: false, frame_count: 0, frame_total_ns: 0, frame_max_ns: 0 }),
    {
        Perf { enabled: false, frame_count: 0, frame_total_ns: 0, frame_max_ns: 0 }
    }
}

impl Perf {
    /// The frames counted so far.
    pub fn frame_count(&self) -> (n: u64)
        ensures
            n == self@.frame_count,
    {
        self.frame_count
    }
}

/// Switch profiling on or off as the configuration says; called once at startup.
pub fn init(perf: &mut Perf, config: &Config)
    ensures
        final(perf)@ == (PerfModel { enabled: config.logging.profile, ..old(perf)@ }),
{
    perf.enabled = config.logging.profile;
}

/// Whether profiling is on.
pub fn enabled(perf: &Perf) -> (b: bool)
    ensures
        b == perf@.enabled,
{
    perf.enabled
}

/// Start a measurement: the current time when profiling is on, `None` (at
/// no cost) otherwise.
pub fn begin(perf: &Perf) -> (r: Option<std::time::Instant>)
    ensures
        r is Some == perf@.enabled,
{
    if perf.enabled {
        Some(instant_now())
    } else {
        None
    }
}

/// End a measurement begun at `start` and record it in `counter`; the time
/// is taken modulo 2^64 nanoseconds.
pub fn end(start: Option<std::time::Instant>, counter: &mut Counter)
    ensures
        start is None ==> final(counter)@ == old(counter)@,
        start is Some ==> exists|e: u64| final(counter)@ == recorded(old(counter)@, e),
{
    if let Some(start) = start {
        let elapsed = instant_elapsed(&start);
        let nanos = duration_as_nanos(&elapsed);
        #[verifier::truncate]
        let ns = nanos as u64;
        counter.record(ns);
    }
}

/// One counter's line of a report.
#[derive(Clone, Debug)]
pub struct CounterLine {
    pub name: String,
    pub calls: u64,
    /// Average call time: whole microseconds and the nanoseconds beyond them.
    pub avg_us: u64,
    pub avg_ns: u64,
    pub max_us: u64,
    /// Total time in the interval divided by the frames in it, in microseconds.
    pub per_frame_us: u64,
}

/// A profiling report.
#[derive(Clone, Debug)]
pub struct FrameReport {
    pub frame: u64,
    /// Average frame time: milliseconds and hundredths.
    pub avg_ms: u64,
    pub avg_ms_hundredths: u64,
    /// Longest frame time: milliseconds and hundredths.
    pub max_ms: u64,
    pub max_ms_hundredths: u64,
    /// Frames per second at the average frame time; 0 below a microsecond.
    pub avg_fps: u64,
    /// The counters called in the interval, in order.
    pub lines: Vec<CounterLine>,
}

/// The line of a counter that was called: averages and totals as the
/// report states them.
pub open spec fn counter_line_ok(l: CounterLine, name: Seq<char>, total_ns: u64, count: u64, max_ns: u64) -> bool {
    &&& count > 0
    &&& l.name@ == name
    &&& l.calls == count
    &&& l.avg_us == total_ns / count / 1000
    &&& l.avg_ns == (total_ns / count) % 1000
    &&& l.max_us == max_ns / 1000
    &&& l.per_frame_us == total_ns / 1000 / REPORT_INTERVAL
}

/// The lines of a report on counters in the states `cs`: one for each
/// counter that was called, in order.
pub open spec fn report_lines(cs: Seq<CounterModel>, lines: Seq<CounterLine>) -> bool
    decreases cs.len(),
{
    if cs.len() == 0 {
        lines.len() == 0
    } else {
        let c = cs.last();
        if c.count == 0 {
            report_lines(cs.drop_last(), lines)
        } else {
            lines.len() > 0 && counter_line_ok(lines.last(), c.name, c.total_ns, c.count, c.max_ns)
                && report_lines(cs.drop_last(), lines.drop_last())
        }
    }
}

/// The frame figures of a report on `total_frame_ns` and `max_frame_ns`.
pub open spec fn frame_figures_ok(r: FrameReport, frame: u64, total_frame_ns: u64, max_frame_ns: u64) -> bool {
    let avg_us = total_frame_ns / REPORT_INTERVAL / 1000;
    let max_us = max_frame_ns / 1000;
    &&& r.frame == frame
    &&& r.avg_ms == avg_us / 1000
    &&& r.avg_ms_hundredths == (avg_us % 1000) / 10
    &&& r.max_ms == max_us / 1000
    &&& r.max_ms_hundredths == (max_us % 1000) / 10
    &&& r.avg_fps == if avg_us > 0 { 1_000_000u64 / avg_us } else { 0u64 }
}

/// Make the report for `frame`: the frame figures, then a line for each
/// counter that was called; the frame accumulators and all counters start
/// again from zero.
pub fn report(perf: &mut Perf, counters: &mut Vec<Counter>, frame: u64) -> (r: FrameReport)
    ensures
        frame_figures_ok(r, frame, old(perf)@.frame_total_ns, old(perf)@.frame_max_ns),
        report_lines(old(counters)@.map_values(|c: Counter| c@), r.lines@),
        final(perf)@ == (PerfModel { frame_total_ns: 0, frame_max_ns: 0, ..old(perf)@ }),
        final(counters)@.len() == old(counters)@.len(),
        forall|i: int| 0 <= i < old(counters)@.len() ==> #[trigger] final(counters)@[i]@ == emptied(old(counters)@[i]@),
{
    let total_frame_ns = perf.frame_total_ns;
    let max_frame_ns = perf.frame_max_ns;
    perf.frame_total_ns = 0;
    perf.frame_max_ns = 0;
    let avg_frame_us = total_frame_ns / REPORT_INTERVAL / 1000;
    let max_frame_us = max_frame_ns / 1000;
    let avg_fps = if avg_frame_us > 0 { 1_000_000 / avg_frame_us } else { 0 };
    let mut lines: Vec<CounterLine> = Vec::new();
    let ghost before = counters@;
    let ghost views = before.map_values(|c: Counter| c@);
    let mut i: usize = 0;
    while i < counters.len()
        invariant
            i <= counters@.len(),
            counters@.len() == before.len(),
            views == before.map_values(|c: Counter| c@),
            forall|j: int| 0 <= j < i ==> #[trigger] counters@[j]@ == emptied(before[j]@),
            forall|j: int| i <= j < counters@.len() ==> #[trigger] counters@[j] == before[j],
            report_lines(views.take(i as int), lines@),
        decreases counters.len() - i,
    {
        proof {
            assert(views.take(i + 1).drop_last() =~= views.take(i as int));
            assert(views.take(i + 1).last() == before[i as int]@);
        }
        let ghost prev = counters@;
        let (total_ns, count, max_ns) = counters[i].drain();
        assert(views[i as int] == before[i as int]@);
        proof {
            assert forall|j: int| 0 <= j < counters@.len() && j != i implies #[trigger] counters@[j] == prev[j] by {}
        }
        if count != 0 {
            let avg = total_ns / count;
            let name = counters[i].name.clone();
            let ghost old_lines = lines@;
            lines.push(
                CounterLine {
                    name,
                    calls: count,
                    avg_us: avg / 1000,
                    avg_ns: avg % 1000,
                    max_us: max_ns / 1000,
                    per_frame_us: total_ns / 1000 / REPORT_INTERVAL,
                },
            );
            proof {
                assert(lines@.drop_last() =~= old_lines);
                assert(views.take(i + 1).last() == views[i as int]);
                assert(views[i as int] == before[i as int]@);
            }
        }
        i = i + 1;
    }
    proof {
        assert(views.take(before.len() as int) =~= views);
    }
    FrameReport {
        frame,
        avg_ms: avg_frame_us / 1000,
        avg_ms_hundredths: (avg_frame_us % 1000) / 10,
        max_ms: max_frame_us / 1000,
        max_ms_hundredths: (max_frame_us % 1000) / 10,
        avg_fps,
        lines,
    }
}

/// The profiler after a frame that took `frame_ns`: the total grows (modulo
/// 2^64), the maximum keeps the longest frame and the count grows by one.
pub open spec fn ticked(p: PerfModel, frame_ns: u64) -> PerfModel {
    PerfModel {
        frame_total_ns: ((p.frame_total_ns + frame_ns) % 0x1_0000_0000_0000_0000) as u64,
        frame_max_ns: if frame_ns > p.frame_max_ns { frame_ns } else { p.frame_max_ns },
        frame_count: (p.frame_count + 1) as u64,
        ..p
    }
}

/// Call once per frame with the frame's time. While profiling is off nothing
/// changes. Otherwise the frame is accumulated, and every `REPORT_INTERVAL`
/// frames the report for that frame is made.
pub fn frame_tick(perf: &mut Perf, counters: &mut Vec<Counter>, frame_ns: u64) -> (r: Option<FrameReport>)
    requires
        old(perf)@.enabled ==> old(perf)@.frame_count < u64::MAX,
    ensures
        !old(perf)@.enabled ==> r is None && final(perf)@ == old(perf)@ && final(counters)@ == old(counters)@,
        old(perf)@.enabled && (old(perf)@.frame_count + 1) % REPORT_INTERVAL as int != 0 ==> r is None
            && final(perf)@ == ticked(old(perf)@, frame_ns) && final(counters)@ == old(counters)@,
        old(perf)@.enabled && (old(perf)@.frame_count + 1) % REPORT_INTERVAL as int == 0 ==> ({
            let t = ticked(old(perf)@, frame_ns);
            &&& r matches Some(rep) && frame_figures_ok(rep, t.frame_count, t.frame_total_ns, t.frame_max_ns)
                && report_lines(old(counters)@.map_values(|c: Counter| c@), rep.lines@)
            &&& final(perf)@ == (PerfModel { frame_total_ns: 0, frame_max_ns: 0, ..t })
            &&& final(counters)@.len() == old(counters)@.len()
            &&& forall|i: int| 0 <= i < old(counters)@.len() ==> #[trigger] final(counters)@[i]@ == emptied(old(counters)@[i]@)
        }),
{
    if !perf.enabled {
        return None;
    }
    perf.frame_total_ns = perf.frame_total_ns.wrapping_add(frame_ns);
    if frame_ns > perf.frame_max_ns {
        perf.frame_max_ns = frame_ns;
    }
    perf.frame_count = perf.frame_count + 1;
    let frame = perf.frame_count;
    if frame % REPORT_INTERVAL == 0 {
        Some(report(perf, counters, frame))
    } else {
        None
    }
}

} // verus!
